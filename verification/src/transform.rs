//! Coordinate transform.
//!
//! Records keep their positions in the on-disk column order (x, z, y). The
//! transform works on a canonical (x, y-up, z) point, rebuilt by swapping the
//! second and third position columns; after the transform the point is
//! written back with the same swap, restoring the on-disk convention. The
//! library translates exactly; a rotation is outside work whose result
//! re-enters through `set_positions`. A transform never changes a record's
//! timestamp or color fields, and absence of a transform is a no-op.

use vstd::prelude::*;

use crate::num::is_digit;
use crate::num::in_parse_range;
use crate::num::scalar_of;
use crate::num::lemma_scalar_of_range;
use crate::num::parse_scalar;
use crate::num::DOT;
use crate::num::MINUS;
use crate::table::RawRecord;
use crate::table::RecModel;
use crate::table::copy_record;
use crate::table::rec_parsed;
use crate::delta::rec_bounded;
use crate::ConvertError;

verus! {

/// A point or offset on the canonical axes, in micro-units.
#[derive(Clone, Copy, Debug, PartialEq, Eq, Structural)]
pub struct Vec3 {
    pub x: i64,
    pub y: i64,
    pub z: i64,
}

/// The mathematical shadow of a point.
pub struct TripleModel {
    pub x: int,
    pub y: int,
    pub z: int,
}

impl View for Vec3 {
    type V = TripleModel;

    open spec fn view(&self) -> TripleModel {
        TripleModel { x: self.x as int, y: self.y as int, z: self.z as int }
    }
}

impl DeepView for Vec3 {
    type V = TripleModel;

    open spec fn deep_view(&self) -> TripleModel {
        self.view()
    }
}

pub open spec fn triple_parsed(t: TripleModel) -> bool {
    &&& in_parse_range(t.x)
    &&& in_parse_range(t.y)
    &&& in_parse_range(t.z)
}

/// The canonical point of a record: x from column one, y-up from column
/// three, z from column two.
pub open spec fn spec_canonical(m: RecModel) -> TripleModel {
    TripleModel { x: m.x, y: m.y, z: m.z }
}

/// Writing a canonical point back into a record swaps the second and third
/// columns again; timestamp and colors stay.
pub open spec fn spec_write_back(m: RecModel, p: TripleModel) -> RecModel {
    RecModel { ts: m.ts, x: p.x, z: p.z, y: p.y, red: m.red, green: m.green, blue: m.blue }
}

/// One translation step on a canonical point.
pub open spec fn spec_translate_point(p: TripleModel, t: TripleModel) -> TripleModel {
    TripleModel { x: p.x + t.x, y: p.y + t.y, z: p.z + t.z }
}

/// A translated record: each position column moved by the offset of its
/// canonical axis.
pub open spec fn spec_translate(m: RecModel, t: TripleModel) -> RecModel {
    spec_write_back(m, spec_translate_point(spec_canonical(m), t))
}

pub open spec fn tr_model(tr: Option<Vec3>) -> Option<TripleModel> {
    match tr {
        Some(t) => Some(t@),
        None => None,
    }
}

/// The whole transform stage over a record sequence: an absent translation
/// is the identity.
pub open spec fn spec_transform(recs: Seq<RecModel>, tr: Option<TripleModel>) -> Seq<RecModel> {
    match tr {
        None => recs,
        Some(t) => recs.map_values(|m: RecModel| spec_translate(m, t)),
    }
}

/// An absent transform passes every record through unchanged.
pub proof fn lemma_no_transform_identity(recs: Seq<RecModel>)
    ensures
        spec_transform(recs, None) == recs,
{
}

/// An all-zero translation is an identity: output positions equal input
/// positions exactly.
pub proof fn lemma_zero_translation_identity(recs: Seq<RecModel>, t: TripleModel)
    requires
        t.x == 0,
        t.y == 0,
        t.z == 0,
    ensures
        spec_transform(recs, Some(t)) == recs,
{
    assert(spec_transform(recs, Some(t)) =~= recs);
}

/// Transforming freshly parsed records keeps every field within one
/// translation of the parse range.
pub proof fn lemma_transform_bounded(recs: Seq<RecModel>, tr: Option<TripleModel>)
    requires
        forall|i: int| 0 <= i < recs.len() ==> rec_parsed(#[trigger] recs[i]),
        tr matches Some(t) ==> triple_parsed(t),
    ensures
        spec_transform(recs, tr).len() == recs.len(),
        forall|i: int| 0 <= i < recs.len() ==> rec_bounded(#[trigger] spec_transform(recs, tr)[i]),
{
}

/// Read a record's canonical point.
pub fn to_canonical(rec: &RawRecord) -> (p: Vec3)
    ensures
        p@ == spec_canonical(rec@),
{
    Vec3 { x: rec.x, y: rec.y, z: rec.z }
}

/// Write a canonical point back into a record.
pub fn from_canonical(rec: &RawRecord, p: &Vec3) -> (r: RawRecord)
    ensures
        r@ == spec_write_back(rec@, p@),
{
    let c = copy_record(rec);
    RawRecord { ts: c.ts, x: p.x, z: p.z, y: p.y, red: c.red, green: c.green, blue: c.blue }
}

/// Move one canonical point by one offset.
pub fn translate_point(p: &Vec3, t: &Vec3) -> (r: Vec3)
    requires
        in_parse_range(p@.x) && in_parse_range(p@.y) && in_parse_range(p@.z),
        triple_parsed(t@),
    ensures
        r@ == spec_translate_point(p@, t@),
{
    Vec3 { x: p.x + t.x, y: p.y + t.y, z: p.z + t.z }
}

/// Apply the optional translation to every record, in order.
pub fn transform_records(recs: &Vec<RawRecord>, translation: &Option<Vec3>) -> (r: Vec<
    RawRecord,
>)
    requires
        forall|i: int|
            0 <= i < recs.deep_view().len() ==> crate::table::rec_parsed(
                #[trigger] recs.deep_view()[i],
            ),
        match translation {
            Some(t) => triple_parsed(t@),
            None => true,
        },
    ensures
        r.deep_view() == spec_transform(recs.deep_view(), tr_model(*translation)),
{
    match translation {
        None => {
            let mut out: Vec<RawRecord> = Vec::new();
            let mut i: usize = 0;
            while i < recs.len()
                invariant
                    0 <= i <= recs@.len(),
                    recs@.len() == recs.deep_view().len(),
                    out.deep_view().len() == i as int,
                    forall|k: int|
                        0 <= k < i ==> out.deep_view()[k] == #[trigger] recs.deep_view()[k],
                decreases recs@.len() - i,
            {
                out.push(copy_record(&recs[i]));
                i = i + 1;
            }
            proof {
                assert(out.deep_view() =~= recs.deep_view());
            }
            out
        },
        Some(t) => {
            let mut out: Vec<RawRecord> = Vec::new();
            let mut i: usize = 0;
            while i < recs.len()
                invariant
                    0 <= i <= recs@.len(),
                    recs@.len() == recs.deep_view().len(),
                    forall|k: int|
                        0 <= k < recs.deep_view().len() ==> crate::table::rec_parsed(
                            #[trigger] recs.deep_view()[k],
                        ),
                    triple_parsed(t@),
                    out.deep_view().len() == i as int,
                    forall|k: int|
                        0 <= k < i ==> out.deep_view()[k] == spec_translate(
                            #[trigger] recs.deep_view()[k],
                            t@,
                        ),
                decreases recs@.len() - i,
            {
                proof {
                    assert(crate::table::rec_parsed(recs.deep_view()[i as int]));
                }
                let p = to_canonical(&recs[i]);
                let q = translate_point(&p, t);
                let rec2 = from_canonical(&recs[i], &q);
                out.push(rec2);
                i = i + 1;
            }
            proof {
                assert(out.deep_view() =~= recs.deep_view().map_values(
                    |m: RecModel| spec_translate(m, t@),
                ));
            }
            out
        },
    }
}

/// Replace every record's position with an externally supplied canonical
/// point, in order.
pub open spec fn spec_set_positions(recs: Seq<RecModel>, ps: Seq<TripleModel>) -> Seq<RecModel> {
    Seq::new(recs.len(), |i: int| spec_write_back(recs[i], ps[i]))
}

/// The canonical points of all records, in order.
pub fn canonical_points(recs: &Vec<RawRecord>) -> (r: Vec<Vec3>)
    ensures
        r.deep_view() == recs.deep_view().map_values(|m: RecModel| spec_canonical(m)),
{
    let mut out: Vec<Vec3> = Vec::new();
    let mut i: usize = 0;
    while i < recs.len()
        invariant
            0 <= i <= recs@.len(),
            recs@.len() == recs.deep_view().len(),
            out.deep_view().len() == i as int,
            forall|k: int|
                0 <= k < i ==> out.deep_view()[k] == spec_canonical(
                    #[trigger] recs.deep_view()[k],
                ),
        decreases recs@.len() - i,
    {
        out.push(to_canonical(&recs[i]));
        i = i + 1;
    }
    proof {
        assert(out.deep_view() =~= recs.deep_view().map_values(|m: RecModel| spec_canonical(m)));
    }
    out
}

/// Put externally computed positions back into the records. Fails when the list
/// does not match the records one for one, or a value is out of range.
pub fn set_positions(recs: &Vec<RawRecord>, pts: &Vec<Vec3>) -> (r: Result<
    Vec<RawRecord>,
    ConvertError,
>)
    ensures
        match r {
            Ok(out) => recs.deep_view().len() == pts.deep_view().len() && (forall|i: int|
                0 <= i < pts.deep_view().len() ==> triple_parsed(#[trigger] pts.deep_view()[i]))
                && out.deep_view() == spec_set_positions(recs.deep_view(), pts.deep_view()),
            Err(e) => e == ConvertError::PositionMismatch && !(recs.deep_view().len()
                == pts.deep_view().len() && (forall|i: int|
                0 <= i < pts.deep_view().len() ==> triple_parsed(
                    #[trigger] pts.deep_view()[i],
                ))),
        },
{
    if recs.len() != pts.len() {
        return Err(ConvertError::PositionMismatch);
    }
    let bound: i64 = 999_999_999_999_999_999;
    let mut out: Vec<RawRecord> = Vec::new();
    let mut i: usize = 0;
    while i < recs.len()
        invariant
            0 <= i <= recs@.len(),
            recs@.len() == recs.deep_view().len(),
            pts@.len() == pts.deep_view().len(),
            recs@.len() == pts@.len(),
            bound == 999_999_999_999_999_999i64,
            forall|k: int| 0 <= k < i ==> triple_parsed(#[trigger] pts.deep_view()[k]),
            out.deep_view().len() == i as int,
            forall|k: int|
                0 <= k < i ==> out.deep_view()[k] == spec_write_back(
                    #[trigger] recs.deep_view()[k],
                    pts.deep_view()[k],
                ),
        decreases recs@.len() - i,
    {
        let p = &pts[i];
        if p.x < -bound || p.x > bound || p.y < -bound || p.y > bound || p.z < -bound || p.z
            > bound {
            proof {
                assert(!triple_parsed(pts.deep_view()[i as int]));
            }
            return Err(ConvertError::PositionMismatch);
        }
        let q = Vec3 { x: p.x, y: p.y, z: p.z };
        out.push(from_canonical(&recs[i], &q));
        i = i + 1;
    }
    proof {
        assert(spec_set_positions(recs.deep_view(), pts.deep_view()) =~= out.deep_view());
    }
    Ok(out)
}

/// ASCII space, the separator of a transform argument's three numbers.
pub const SPACE: u8 = 32;

/// A character the transform argument's numbers may use: a digit, a dot or
/// a minus sign.
pub open spec fn is_triple_char(b: u8) -> bool {
    is_digit(b) || b == DOT || b == MINUS
}

pub open spec fn all_triple_chars(s: Seq<u8>) -> bool {
    forall|i: int| 0 <= i < s.len() ==> is_triple_char(s[i])
}

/// Index of the first space, or the length when there is none.
pub open spec fn first_space(s: Seq<u8>) -> int
    decreases s.len(),
{
    if s.len() == 0 {
        0
    } else if s[0] == SPACE {
        0
    } else {
        1 + first_space(s.drop_first())
    }
}

/// Pinning the first space's position.
pub proof fn lemma_first_space_at(s: Seq<u8>, k: int)
    requires
        0 <= k <= s.len(),
        forall|j: int| 0 <= j < k ==> s[j] != SPACE,
        k < s.len() ==> s[k] == SPACE,
    ensures
        first_space(s) == k,
    decreases s.len(),
{
    if s.len() == 0 {
    } else if s[0] == SPACE {
        assert(k == 0);
    } else {
        assert(k >= 1);
        lemma_first_space_at(s.drop_first(), k - 1);
    }
}

/// The shape a transform argument must have: three nonempty runs of digits,
/// dots and minus signs, separated by single spaces.
pub open spec fn triple_tokens_ok(s: Seq<u8>) -> bool {
    let a = first_space(s);
    &&& a < s.len()
    &&& first_space(s.skip(a + 1)) < s.skip(a + 1).len()
    &&& s.take(a).len() > 0
    &&& s.skip(a + 1).take(first_space(s.skip(a + 1))).len() > 0
    &&& s.skip(a + 1).skip(first_space(s.skip(a + 1)) + 1).len() > 0
    &&& all_triple_chars(s.take(a))
    &&& all_triple_chars(s.skip(a + 1).take(first_space(s.skip(a + 1))))
    &&& all_triple_chars(s.skip(a + 1).skip(first_space(s.skip(a + 1)) + 1))
}

/// The triple a transform argument denotes, or why it denotes none: the
/// argument must have the three-number shape and each number must be a
/// decimal the library accepts.
pub open spec fn spec_triple(s: Seq<u8>) -> Result<TripleModel, ConvertError> {
    if !triple_tokens_ok(s) {
        Err(ConvertError::TripleFormat)
    } else {
        let a = first_space(s);
        let rest = s.skip(a + 1);
        let b = first_space(rest);
        if scalar_of(s.take(a)) is Some && scalar_of(rest.take(b)) is Some && scalar_of(
            rest.skip(b + 1),
        ) is Some {
            Ok(
                TripleModel {
                    x: scalar_of(s.take(a))->Some_0,
                    y: scalar_of(rest.take(b))->Some_0,
                    z: scalar_of(rest.skip(b + 1))->Some_0,
                },
            )
        } else {
            Err(ConvertError::TripleFormat)
        }
    }
}

/// Copy of the bytes between two positions.
fn copy_range(s: &Vec<u8>, a: usize, b: usize) -> (r: Vec<u8>)
    requires
        a <= b <= s@.len(),
    ensures
        r@ == s@.subrange(a as int, b as int),
{
    let mut out: Vec<u8> = Vec::new();
    let mut i: usize = a;
    while i < b
        invariant
            a <= i <= b <= s@.len(),
            out@ =~= s@.subrange(a as int, i as int),
        decreases b - i,
    {
        out.push(s[i]);
        i = i + 1;
        proof {
            assert(out@ =~= s@.subrange(a as int, i as int));
        }
    }
    out
}

/// Whether every byte may appear in a transform argument's number.
fn check_triple_chars(t: &Vec<u8>) -> (ok: bool)
    ensures
        ok == all_triple_chars(t@),
{
    let mut i: usize = 0;
    while i < t.len()
        invariant
            0 <= i <= t@.len(),
            forall|j: int| 0 <= j < i ==> is_triple_char(t@[j]),
        decreases t@.len() - i,
    {
        let c: u8 = t[i];
        if !((48 <= c && c <= 57) || c == DOT || c == MINUS) {
            return false;
        }
        i = i + 1;
    }
    true
}

/// Parse a transform argument: three space-separated signed decimals.
pub fn parse_triple(s: &Vec<u8>) -> (r: Result<Vec3, ConvertError>)
    ensures
        match r {
            Ok(t) => spec_triple(s@) == Ok::<TripleModel, ConvertError>(t@) && triple_parsed(t@),
            Err(e) => spec_triple(s@) == Err::<TripleModel, ConvertError>(e),
        },
{
    let n: usize = s.len();
    let mut i: usize = 0;
    while i < n && s[i] != SPACE
        invariant
            0 <= i <= n,
            n == s@.len(),
            forall|j: int| 0 <= j < i ==> s@[j] != SPACE,
        decreases n - i,
    {
        i = i + 1;
    }
    proof {
        lemma_first_space_at(s@, i as int);
    }
    if i == n {
        return Err(ConvertError::TripleFormat);
    }
    let sp1: usize = i;
    let ghost rest: Seq<u8> = s@.skip(sp1 + 1);
    let mut j: usize = sp1 + 1;
    while j < n && s[j] != SPACE
        invariant
            sp1 + 1 <= j <= n,
            n == s@.len(),
            forall|k: int| sp1 + 1 <= k < j ==> s@[k] != SPACE,
        decreases n - j,
    {
        j = j + 1;
    }
    proof {
        assert forall|k: int| 0 <= k < j - sp1 - 1 implies rest[k] != SPACE by {
            assert(rest[k] == s@[sp1 + 1 + k]);
        }
        if j < n {
            assert(rest[j - sp1 - 1] == s@[j as int]);
        }
        lemma_first_space_at(rest, j - sp1 - 1);
    }
    if j == n {
        return Err(ConvertError::TripleFormat);
    }
    let sp2: usize = j;
    if sp1 == 0 || sp2 == sp1 + 1 || sp2 + 1 == n {
        proof {
            assert(s@.take(sp1 as int).len() == sp1 as int);
            assert(rest.take(sp2 - sp1 - 1).len() == sp2 - sp1 - 1);
            assert(rest.skip(sp2 - sp1).len() == n - sp2 - 1);
        }
        return Err(ConvertError::TripleFormat);
    }
    let t1 = copy_range(s, 0, sp1);
    let t2 = copy_range(s, sp1 + 1, sp2);
    let t3 = copy_range(s, sp2 + 1, n);
    proof {
        assert(t1@ =~= s@.take(sp1 as int));
        assert(t2@ =~= rest.take(sp2 - sp1 - 1));
        assert(t3@ =~= rest.skip(sp2 - sp1));
    }
    if !check_triple_chars(&t1) || !check_triple_chars(&t2) || !check_triple_chars(&t3) {
        return Err(ConvertError::TripleFormat);
    }
    let x = match parse_scalar(&t1) {
        Some(v) => v,
        None => {
            return Err(ConvertError::TripleFormat);
        },
    };
    let y = match parse_scalar(&t2) {
        Some(v) => v,
        None => {
            return Err(ConvertError::TripleFormat);
        },
    };
    let z = match parse_scalar(&t3) {
        Some(v) => v,
        None => {
            return Err(ConvertError::TripleFormat);
        },
    };
    proof {
        lemma_scalar_of_range(t1@);
        lemma_scalar_of_range(t2@);
        lemma_scalar_of_range(t3@);
    }
    Ok(Vec3 { x, y, z })
}

} // verus!
