//! Show assembly.
//!
//! Per-agent results accumulate into one document. The performance list is
//! kept ascending by id whatever order the archive yields its entries in,
//! by inserting each new performance at its place; equal ids keep arrival
//! order. Document-level defaults are fixed and independent of the agents.

use vstd::prelude::*;
use vstd::seq_lib::lemma_multiset_commutative;

use crate::num::MICRO;
use crate::delta::Traversal;
use crate::delta::TravModel;
use crate::delta::rec_bounded;
use crate::delta::spec_traversals;
use crate::delta::compute_traversals;
use crate::delta::lemma_delta_round_trip;
use crate::delta::sum_dx;
use crate::delta::sum_dy;
use crate::delta::sum_dz;
use crate::table::RawRecord;
use crate::table::RecModel;

verus! {

/// One color step of a payload; the conversion never produces any.
pub struct ColorAction {
    pub red: u8,
    pub green: u8,
    pub blue: u8,
    pub frames: Option<u32>,
}

/// One payload of a performance; the conversion leaves payloads empty.
pub struct Payload {
    pub id: u64,
    pub payload_type: Vec<u8>,
    pub actions: Vec<ColorAction>,
}

/// One agent's home position and steps.
pub struct AgentDescription {
    pub home_x: i64,
    pub home_y: i64,
    pub home_z: i64,
    pub traversals: Vec<Traversal>,
}

/// One agent's full result, keyed by its zero-indexed id.
pub struct Performance {
    pub id: u64,
    pub description: AgentDescription,
    pub payload: Vec<Payload>,
}

/// The root document.
pub struct Show {
    pub version: Vec<u8>,
    pub default_position_rate_micro: i64,
    pub default_color_rate_micro: i64,
    pub performances: Vec<Performance>,
}

/// The mathematical shadow of a performance.
pub struct PerfModel {
    pub id: int,
    pub home_x: int,
    pub home_y: int,
    pub home_z: int,
    pub traversals: Seq<TravModel>,
}

impl View for Performance {
    type V = PerfModel;

    open spec fn view(&self) -> PerfModel {
        PerfModel {
            id: self.id as int,
            home_x: self.description.home_x as int,
            home_y: self.description.home_y as int,
            home_z: self.description.home_z as int,
            traversals: self.description.traversals.deep_view(),
        }
    }
}

impl DeepView for Performance {
    type V = PerfModel;

    open spec fn deep_view(&self) -> PerfModel {
        self.view()
    }
}

/// The mathematical shadow of the document.
pub struct ShowModel {
    pub version: Seq<u8>,
    pub position_rate: int,
    pub color_rate: int,
    pub performances: Seq<PerfModel>,
}

impl View for Show {
    type V = ShowModel;

    open spec fn view(&self) -> ShowModel {
        ShowModel {
            version: self.version@,
            position_rate: self.default_position_rate_micro as int,
            color_rate: self.default_color_rate_micro as int,
            performances: self.performances.deep_view(),
        }
    }
}

/// The document's fixed version text, `1.0`.
pub open spec fn version_bytes() -> Seq<u8> {
    seq![49u8, 46u8, 48u8]
}

/// The performance one agent's transformed records denote: home from the
/// first record's columns (x from column one, y from column three, z from
/// column two), one step per adjacent pair.
pub open spec fn spec_performance(id: int, recs: Seq<RecModel>) -> PerfModel {
    PerfModel {
        id: id,
        home_x: recs[0].x,
        home_y: recs[0].y,
        home_z: recs[0].z,
        traversals: spec_traversals(recs),
    }
}

/// The home position plus the summed deltas reconstructs the last record's
/// position exactly, axis by axis.
pub proof fn lemma_performance_round_trip(id: int, recs: Seq<RecModel>)
    requires
        recs.len() >= 1,
    ensures
        spec_performance(id, recs).home_x + sum_dx(spec_performance(id, recs).traversals)
            == recs.last().x,
        spec_performance(id, recs).home_y + sum_dy(spec_performance(id, recs).traversals)
            == recs.last().y,
        spec_performance(id, recs).home_z + sum_dz(spec_performance(id, recs).traversals)
            == recs.last().z,
{
    lemma_delta_round_trip(recs);
}

/// Build one agent's performance from its transformed records.
pub fn make_performance(id: u64, recs: &Vec<RawRecord>) -> (r: Performance)
    requires
        recs.deep_view().len() >= 1,
        forall|i: int|
            0 <= i < recs.deep_view().len() ==> rec_bounded(#[trigger] recs.deep_view()[i]),
    ensures
        r@ == spec_performance(id as int, recs.deep_view()),
        r@.traversals.len() == recs.deep_view().len() - 1,
        r.payload@.len() == 0,
{
    let traversals = compute_traversals(recs);
    let first = &recs[0];
    Performance {
        id,
        description: AgentDescription {
            home_x: first.x,
            home_y: first.y,
            home_z: first.z,
            traversals,
        },
        payload: Vec::new(),
    }
}

/// Ascending id order.
pub open spec fn sorted_by_id(s: Seq<PerfModel>) -> bool {
    forall|i: int, j: int| 0 <= i < j < s.len() ==> s[i].id <= s[j].id
}

/// Insertion keeping ascending id order; a newcomer goes after its equals.
pub open spec fn spec_insert_by_id(s: Seq<PerfModel>, p: PerfModel) -> Seq<PerfModel>
    decreases s.len(),
{
    if s.len() == 0 {
        seq![p]
    } else if p.id < s[0].id {
        seq![p] + s
    } else {
        seq![s[0]] + spec_insert_by_id(s.drop_first(), p)
    }
}

/// Repeated ordered insertion: the stable ascending sort of the whole list.
pub open spec fn spec_sort_by_id(s: Seq<PerfModel>) -> Seq<PerfModel>
    decreases s.len(),
{
    if s.len() == 0 {
        Seq::empty()
    } else {
        spec_insert_by_id(spec_sort_by_id(s.drop_last()), s.last())
    }
}

/// Where the newcomer lands: before the first strictly larger id.
pub proof fn lemma_insert_by_id_at(s: Seq<PerfModel>, p: PerfModel, k: int)
    requires
        0 <= k <= s.len(),
        forall|j: int| 0 <= j < k ==> s[j].id <= p.id,
        k < s.len() ==> p.id < s[k].id,
    ensures
        spec_insert_by_id(s, p) == s.take(k) + seq![p] + s.skip(k),
    decreases s.len(),
{
    if s.len() == 0 {
        assert(spec_insert_by_id(s, p) =~= s.take(k) + seq![p] + s.skip(k));
    } else if p.id < s[0].id {
        assert(k == 0);
        assert(spec_insert_by_id(s, p) =~= s.take(0) + seq![p] + s.skip(0));
    } else {
        assert(k >= 1);
        lemma_insert_by_id_at(s.drop_first(), p, k - 1);
        assert(spec_insert_by_id(s, p) =~= s.take(k) + seq![p] + s.skip(k)) by {
            assert(s.drop_first().take(k - 1) =~= s.skip(1).take(k - 1));
            assert(seq![s[0]] + (s.drop_first().take(k - 1) + seq![p] + s.drop_first().skip(k - 1))
                =~= s.take(k) + seq![p] + s.skip(k));
        }
    }
}

/// Ordered insertion keeps the order and only adds the newcomer.
pub proof fn lemma_insert_by_id_sorted(s: Seq<PerfModel>, p: PerfModel)
    requires
        sorted_by_id(s),
    ensures
        sorted_by_id(spec_insert_by_id(s, p)),
        spec_insert_by_id(s, p).to_multiset() == s.to_multiset().insert(p),
        spec_insert_by_id(s, p).len() == s.len() + 1,
    decreases s.len(),
{
    broadcast use vstd::seq_lib::group_to_multiset_ensures;

    if s.len() == 0 {
        assert(spec_insert_by_id(s, p) =~= Seq::empty().push(p));
        assert(Seq::<PerfModel>::empty().push(p).to_multiset() =~= s.to_multiset().insert(p));
    } else if p.id < s[0].id {
        let r = seq![p] + s;
        assert(sorted_by_id(r)) by {
            assert(forall|j: int| 1 <= j < r.len() ==> r[j] == s[j - 1]);
        }
        lemma_multiset_commutative(seq![p], s);
        assert(seq![p].to_multiset() =~= Seq::<PerfModel>::empty().push(p).to_multiset()) by {
            assert(seq![p] =~= Seq::<PerfModel>::empty().push(p));
        }
        assert(r.to_multiset() =~= s.to_multiset().insert(p));
    } else {
        let tail = spec_insert_by_id(s.drop_first(), p);
        assert(sorted_by_id(s.drop_first())) by {
            assert(forall|i: int, j: int|
                0 <= i < j < s.drop_first().len() ==> s.drop_first()[i] == s[i + 1]
                    && s.drop_first()[j] == s[j + 1]);
        }
        lemma_insert_by_id_sorted(s.drop_first(), p);
        let r = seq![s[0]] + tail;
        assert(sorted_by_id(r)) by {
            assert(forall|j: int| 1 <= j < r.len() ==> r[j] == tail[j - 1]);
            assert(forall|e: PerfModel| #[trigger]
                tail.contains(e) ==> e == p || s.drop_first().contains(e)) by {
                assert(forall|e: PerfModel| #[trigger]
                    tail.contains(e) ==> tail.to_multiset().count(e) > 0);
            }
            assert forall|j: int| 1 <= j < r.len() implies s[0].id <= r[j].id by {
                assert(tail.contains(tail[j - 1]));
                if tail[j - 1] == p {
                } else {
                    let e = tail[j - 1];
                    assert(s.drop_first().contains(e));
                    let w = choose|w: int|
                        0 <= w < s.drop_first().len() && s.drop_first()[w] == e;
                    assert(s[w + 1] == e);
                }
            }
        }
        lemma_multiset_commutative(seq![s[0]], tail);
        lemma_multiset_commutative(seq![s[0]], s.drop_first());
        assert(seq![s[0]] + s.drop_first() =~= s);
        assert(seq![s[0]].to_multiset() =~= Seq::<PerfModel>::empty().push(s[0]).to_multiset())
            by {
            assert(seq![s[0]] =~= Seq::<PerfModel>::empty().push(s[0]));
        }
        assert(r.to_multiset() =~= s.to_multiset().insert(p));
    }
}

/// The sorted list is ascending by id and holds exactly the given
/// performances: ordering is re-established whatever order entries arrived
/// in, and none is lost or invented.
pub proof fn lemma_sort_by_id_law(s: Seq<PerfModel>)
    ensures
        sorted_by_id(spec_sort_by_id(s)),
        spec_sort_by_id(s).to_multiset() == s.to_multiset(),
        spec_sort_by_id(s).len() == s.len(),
    decreases s.len(),
{
    broadcast use vstd::seq_lib::group_to_multiset_ensures;

    if s.len() == 0 {
    } else {
        lemma_sort_by_id_law(s.drop_last());
        lemma_insert_by_id_sorted(spec_sort_by_id(s.drop_last()), s.last());
        assert(s.drop_last().push(s.last()) =~= s);
        assert(s.drop_last().push(s.last()).to_multiset() =~= s.drop_last().to_multiset().insert(
            s.last(),
        ));
    }
}

/// Insert one performance into an id-ordered list, after any equal ids.
pub fn insert_performance(perfs: &mut Vec<Performance>, p: Performance)
    requires
        sorted_by_id(old(perfs).deep_view()),
    ensures
        final(perfs).deep_view() == spec_insert_by_id(old(perfs).deep_view(), p@),
        sorted_by_id(final(perfs).deep_view()),
{
    let ghost orig: Seq<PerfModel> = perfs.deep_view();
    let ghost pm: PerfModel = p@;
    let mut k: usize = 0;
    while k < perfs.len() && perfs[k].id <= p.id
        invariant
            0 <= k <= perfs@.len(),
            perfs@.len() == perfs.deep_view().len(),
            perfs.deep_view() == orig,
            pm == p@,
            forall|j: int| 0 <= j < k ==> #[trigger] orig[j].id <= pm.id,
        decreases perfs@.len() - k,
    {
        proof {
            assert(orig[k as int].id == perfs@[k as int]@.id);
        }
        k = k + 1;
    }
    proof {
        assert(k < perfs@.len() ==> pm.id < orig[k as int].id);
        lemma_insert_by_id_at(orig, pm, k as int);
        lemma_insert_by_id_sorted(orig, pm);
    }
    perfs.insert(k, p);
    proof {
        assert(perfs.deep_view() =~= orig.take(k as int) + seq![pm] + orig.skip(k as int));
    }
}

/// The document an unordered performance list denotes: fixed defaults and
/// the stable ascending sort of the list.
pub open spec fn spec_show_of(ps: Seq<PerfModel>) -> ShowModel {
    ShowModel {
        version: version_bytes(),
        position_rate: 4 * MICRO,
        color_rate: 4 * MICRO,
        performances: spec_sort_by_id(ps),
    }
}

/// Assemble the document: fixed defaults, performances ordered by id.
pub fn assemble_show(perfs: Vec<Performance>) -> (r: Show)
    ensures
        r@ == spec_show_of(perfs.deep_view()),
        sorted_by_id(r@.performances),
{
    let ghost orig: Seq<PerfModel> = perfs.deep_view();
    let mut rest = perfs;
    let total: usize = rest.len();
    let mut ordered: Vec<Performance> = Vec::new();
    let mut i: usize = 0;
    while rest.len() > 0
        invariant
            0 <= i <= total,
            total as int == orig.len(),
            rest.deep_view() =~= orig.skip(i as int),
            ordered.deep_view() == spec_sort_by_id(orig.take(i as int)),
            sorted_by_id(ordered.deep_view()),
        decreases rest@.len(),
    {
        proof {
            assert(rest.deep_view().len() == rest@.len());
            assert(orig.skip(i as int).len() > 0);
            assert((i as int) < orig.len());
        }
        let ghost prev: Seq<PerfModel> = rest.deep_view();
        let ghost prevv: Seq<Performance> = rest@;
        let p = rest.remove(0);
        proof {
            assert(orig.take(i + 1).drop_last() =~= orig.take(i as int));
            assert(orig.take(i + 1).last() == orig[i as int]);
            assert(p@ == prev[0]);
            assert(prev[0] == orig.skip(i as int)[0]);
            assert(p@ == orig[i as int]);
        }
        insert_performance(&mut ordered, p);
        proof {
            assert(rest@ == prevv.remove(0));
            assert forall|k: int| 0 <= k < rest.deep_view().len() implies rest.deep_view()[k]
                == orig.skip(i + 1)[k] by {
                assert(rest@[k] == prevv[k + 1]);
                assert(rest.deep_view()[k] == rest@[k].deep_view());
                assert(prev[k + 1] == prevv[k + 1].deep_view());
                assert(prev[k + 1] == orig.skip(i as int)[k + 1]);
                assert(orig.skip(i as int)[k + 1] == orig[i + 1 + k]);
                assert(orig.skip(i + 1)[k] == orig[i + 1 + k]);
            }
            assert(rest.deep_view() =~= orig.skip(i + 1));
        }
        i = i + 1;
    }
    proof {
        assert(orig.take(i as int) =~= orig);
    }
    let version: Vec<u8> = vec![49u8, 46u8, 48u8];
    proof {
        assert(version@ =~= version_bytes());
    }
    Show {
        version,
        default_position_rate_micro: 4_000_000,
        default_color_rate_micro: 4_000_000,
        performances: ordered,
    }
}

} // verus!
