//! Collision grouping and merge resolution: bodies detected overlapping during
//! the pairwise scan are gathered into groups around their heaviest member and
//! merged after the scan, conserving mass and momentum.

use crate::components::{Mass, Moment, Momentum, V3, Vec3, Velocity};
use crate::math::{abs1, lemma_div_tz_remainder};
use crate::planet::{
    radius_from_mass, radius_of_mass, scan_inv, snapshot_of, sum_masses, wf_body, BodyModel,
    MASS_LIMIT, MAX_BODIES, POS_SCAN_LIMIT, VEL_SCAN_LIMIT,
};
use vstd::prelude::*;

verus! {

/// Mathematical model of one body's pre-collision snapshot.
pub ghost struct InfoModel {
    pub entity: int,
    pub mass: int,
    pub vel: V3,
    pub pos: V3,
}

/// A snapshot of one body at the moment a collision was detected, keyed by the
/// body's stable identity.
#[derive(Clone, Copy, Debug)]
pub struct PlanetInfo {
    pub entity: u64,
    pub mass: Mass,
    pub vel: Velocity,
    pub pos: Vec3,
}

impl View for PlanetInfo {
    type V = InfoModel;

    open spec fn view(&self) -> InfoModel {
        InfoModel { entity: self.entity as int, mass: self.mass@, vel: self.vel@, pos: self.pos@ }
    }
}

/// Mathematical model of a collision group.
pub ghost struct GroupModel {
    pub largest: InfoModel,
    pub members: Seq<InfoModel>,
}

/// One merge group: the heaviest body found in a collision, and every body
/// detected colliding with it this step.
#[derive(Clone, Debug)]
pub struct CollisionGroup {
    pub largest: PlanetInfo,
    pub members: Vec<PlanetInfo>,
}

impl View for CollisionGroup {
    type V = GroupModel;

    open spec fn view(&self) -> GroupModel {
        GroupModel {
            largest: self.largest@,
            members: self.members@.map_values(|p: PlanetInfo| p@),
        }
    }
}

/// The step-transient table of merge groups, rebuilt by every pairwise scan
/// and consumed by the resolver.
#[derive(Clone, Debug)]
pub struct CollisionGroups {
    pub groups: Vec<CollisionGroup>,
}

impl View for CollisionGroups {
    type V = Seq<GroupModel>;

    open spec fn view(&self) -> Seq<GroupModel> {
        self.groups@.map_values(|g: CollisionGroup| g@)
    }
}

/// Whether `id` was recorded as a member (not the survivor) of group `gr`.
pub open spec fn is_member_of(gr: GroupModel, id: int) -> bool {
    exists|k: int| 0 <= k < gr.members.len() && gr.members[k].entity == id
}

/// Whether `id` was recorded as a member of any group.
pub open spec fn is_member(groups: Seq<GroupModel>, id: int) -> bool {
    exists|i: int| 0 <= i < groups.len() && is_member_of(groups[i], id)
}

/// Whether some group survives under `id`.
pub open spec fn has_largest(groups: Seq<GroupModel>, id: int) -> bool {
    exists|i: int| 0 <= i < groups.len() && groups[i].largest.entity == id
}

/// Index of the first group surviving under `id`, or -1.
pub open spec fn find_largest(groups: Seq<GroupModel>, id: int) -> int
    decreases groups.len(),
{
    if groups.len() == 0 {
        -1
    } else if groups[0].largest.entity == id {
        0
    } else {
        let r = find_largest(groups.drop_first(), id);
        if r < 0 {
            -1
        } else {
            r + 1
        }
    }
}

/// `find_largest` finds a group exactly when one exists, within bounds.
pub proof fn lemma_find_largest(groups: Seq<GroupModel>, id: int)
    ensures
        has_largest(groups, id) <==> 0 <= find_largest(groups, id) < groups.len(),
        0 <= find_largest(groups, id) ==> groups[find_largest(groups, id)].largest.entity == id,
        !has_largest(groups, id) ==> find_largest(groups, id) == -1,
    decreases groups.len(),
{
    if groups.len() > 0 {
        lemma_find_largest(groups.drop_first(), id);
        if groups[0].largest.entity != id {
            let r = find_largest(groups.drop_first(), id);
            if r >= 0 {
                assert(groups.drop_first()[r] == groups[r + 1]);
                assert(has_largest(groups, id));
            } else {
                if has_largest(groups, id) {
                    let i = choose|i: int|
                        0 <= i < groups.len() && groups[i].largest.entity == id;
                    assert(groups.drop_first()[i - 1] == groups[i]);
                    assert(has_largest(groups.drop_first(), id));
                }
            }
        }
    } else {
        assert(!has_largest(groups, id));
    }
}

impl CollisionGroups {
    /// An empty group table.
    pub fn new() -> (r: CollisionGroups)
        ensures
            r@ == Seq::<GroupModel>::empty(),
    {
        let r = CollisionGroups { groups: Vec::new() };
        proof {
            assert(r@ =~= Seq::<GroupModel>::empty());
        }
        r
    }

    /// Whether `id` is recorded as a member of any group.
    pub fn contains_member(&self, id: u64) -> (b: bool)
        ensures
            b == is_member(self@, id as int),
    {
        let n = self.groups.len();
        let mut i: usize = 0;
        while i < n
            invariant
                0 <= i <= n,
                n == self.groups.len(),
                forall|ii: int| 0 <= ii < i ==> !is_member_of(self@[ii], id as int),
            decreases n - i,
        {
            let m = self.groups[i].members.len();
            let mut j: usize = 0;
            while j < m
                invariant
                    0 <= j <= m,
                    i < n,
                    n == self.groups.len(),
                    m == self.groups[i as int].members.len(),
                    forall|jj: int|
                        0 <= jj < j ==> self@[i as int].members[jj].entity != id as int,
                decreases m - j,
            {
                if self.groups[i].members[j].entity == id {
                    assert(self@[i as int].members[j as int].entity == id as int);
                    return true;
                }
                j += 1;
            }
            assert(!is_member_of(self@[i as int], id as int));
            i += 1;
        }
        false
    }

    /// Index of the group surviving under `id`, if any.
    pub fn find_group(&self, id: u64) -> (r: Option<usize>)
        ensures
            match r {
                Some(i) => i < self.groups.len() && find_largest(self@, id as int) == i as int,
                None => find_largest(self@, id as int) == -1,
            },
    {
        let n = self.groups.len();
        let mut i: usize = 0;
        while i < n
            invariant
                0 <= i <= n,
                n == self.groups.len(),
                forall|ii: int| 0 <= ii < i ==> self@[ii].largest.entity != id as int,
            decreases n - i,
        {
            if self.groups[i].largest.entity == id {
                proof {
                    lemma_find_largest_prefix(self@, id as int, i as int);
                }
                return Some(i);
            }
            i += 1;
        }
        proof {
            lemma_find_largest(self@, id as int);
        }
        None
    }
}

impl CollisionGroups {
    /// Record a detected collision: `smaller` joins the group that survives
    /// under `larger`, which is created if this is its first collision.
    pub fn insert_colliding(&mut self, larger: PlanetInfo, smaller: PlanetInfo)
        ensures
            final(self)@ == crate::planet::insert_collision(old(self)@, larger@, smaller@),
    {
        let r = self.find_group(larger.entity);
        proof {
            lemma_find_largest(old(self)@, larger@.entity);
        }
        match r {
            Some(gi) => {
                let grp: &mut CollisionGroup = &mut self.groups[gi];
                grp.members.push(smaller);
                proof {
                    let old_groups = old(self)@;
                    let gii = gi as int;
                    assert(self.groups@ == old(self).groups@.update(
                        gii,
                        self.groups@[gii],
                    ));
                    assert(self.groups@[gii].largest == old(self).groups@[gii].largest);
                    assert(self.groups@[gii].members@ == old(self).groups@[gii].members@.push(
                        smaller,
                    ));
                    assert(self@[gii].members =~= old_groups[gii].members.push(smaller@));
                    assert(self@[gii] == (GroupModel {
                        largest: old_groups[gii].largest,
                        members: old_groups[gii].members.push(smaller@),
                    }));
                    assert(self@ =~= old_groups.update(
                        gii,
                        GroupModel {
                            largest: old_groups[gii].largest,
                            members: old_groups[gii].members.push(smaller@),
                        },
                    ));
                }
            },
            None => {
                let mut members: Vec<PlanetInfo> = Vec::new();
                members.push(smaller);
                let grp = CollisionGroup { largest: larger, members };
                proof {
                    assert(grp@.members =~= seq![smaller@]);
                }
                self.groups.push(grp);
                proof {
                    assert(self@ =~= old(self)@.push(
                        GroupModel { largest: larger@, members: seq![smaller@] },
                    ));
                }
            },
        }
    }
}

/// If every group before `i` survives under a different id and group `i`
/// matches, then `find_largest` returns `i`.
pub proof fn lemma_find_largest_prefix(groups: Seq<GroupModel>, id: int, i: int)
    requires
        0 <= i < groups.len(),
        groups[i].largest.entity == id,
        forall|ii: int| 0 <= ii < i ==> groups[ii].largest.entity != id,
    ensures
        find_largest(groups, id) == i,
    decreases i,
{
    if i == 0 {
    } else {
        lemma_find_largest_prefix(groups.drop_first(), id, i - 1);
        assert(groups.drop_first()[i - 1] == groups[i]);
        assert(forall|ii: int|
            0 <= ii < i - 1 ==> groups.drop_first()[ii] == groups[ii + 1]);
    }
}


/// Total snapshot mass of a member list.
pub open spec fn sum_mass(s: Seq<InfoModel>) -> int
    decreases s.len(),
{
    if s.len() == 0 {
        0
    } else {
        s[0].mass + sum_mass(s.drop_first())
    }
}

/// Total snapshot momentum (mass times velocity) of a member list.
pub open spec fn sum_momentum(s: Seq<InfoModel>) -> V3
    decreases s.len(),
{
    if s.len() == 0 {
        V3::zero()
    } else {
        s[0].vel.scale(s[0].mass).add(sum_momentum(s.drop_first()))
    }
}

/// Total snapshot mass moment (mass times position) of a member list.
pub open spec fn sum_moment(s: Seq<InfoModel>) -> V3
    decreases s.len(),
{
    if s.len() == 0 {
        V3::zero()
    } else {
        s[0].pos.scale(s[0].mass).add(sum_moment(s.drop_first()))
    }
}

/// Summing one more member adds its contribution.
pub proof fn lemma_sums_snoc(s: Seq<InfoModel>, x: InfoModel)
    ensures
        sum_mass(s.push(x)) == sum_mass(s) + x.mass,
        sum_momentum(s.push(x)) == sum_momentum(s).add(x.vel.scale(x.mass)),
        sum_moment(s.push(x)) == sum_moment(s).add(x.pos.scale(x.mass)),
    decreases s.len(),
{
    if s.len() == 0 {
        assert(s.push(x)[0] == x);
        assert(s.push(x).drop_first() =~= Seq::<InfoModel>::empty());
        assert(sum_mass(s.push(x)) == x.mass + sum_mass(Seq::<InfoModel>::empty()));
        assert(sum_momentum(s.push(x)) == x.vel.scale(x.mass).add(
            sum_momentum(Seq::<InfoModel>::empty()),
        ));
        assert(sum_moment(s.push(x)) == x.pos.scale(x.mass).add(
            sum_moment(Seq::<InfoModel>::empty()),
        ));
        assert(sum_momentum(s).add(x.vel.scale(x.mass)) == x.vel.scale(x.mass).add(
            V3::zero(),
        ));
        assert(sum_moment(s).add(x.pos.scale(x.mass)) == x.pos.scale(x.mass).add(V3::zero()));
    } else {
        assert(s.push(x)[0] == s[0]);
        assert(s.push(x).drop_first() =~= s.drop_first().push(x));
        lemma_sums_snoc(s.drop_first(), x);
        assert(sum_mass(s.push(x)) == s[0].mass + sum_mass(s.drop_first().push(x)));
        assert(sum_mass(s) == s[0].mass + sum_mass(s.drop_first()));
        assert(sum_momentum(s.push(x)) == s[0].vel.scale(s[0].mass).add(
            sum_momentum(s.drop_first().push(x)),
        ));
        assert(sum_momentum(s) == s[0].vel.scale(s[0].mass).add(sum_momentum(s.drop_first())));
        assert(sum_moment(s.push(x)) == s[0].pos.scale(s[0].mass).add(
            sum_moment(s.drop_first().push(x)),
        ));
        assert(sum_moment(s) == s[0].pos.scale(s[0].mass).add(sum_moment(s.drop_first())));
    }
}

/// Conserved total mass of one merge group: the survivor plus every member.
pub open spec fn group_total_mass(gr: GroupModel) -> int {
    gr.largest.mass + sum_mass(gr.members)
}

/// Conserved total momentum of one merge group.
pub open spec fn group_momentum(gr: GroupModel) -> V3 {
    gr.largest.vel.scale(gr.largest.mass).add(sum_momentum(gr.members))
}

/// Total mass moment of one merge group; divided by the total mass it gives
/// the center of mass.
pub open spec fn group_moment(gr: GroupModel) -> V3 {
    gr.largest.pos.scale(gr.largest.mass).add(sum_moment(gr.members))
}

/// Snapshot bounds under which the resolver's arithmetic is exact: every
/// snapshot holds a positive bounded mass and scan-bounded velocity and
/// position, and the group total stays within the mass bound.
pub open spec fn info_ok(p: InfoModel) -> bool {
    &&& 1 <= p.mass <= MASS_LIMIT
    &&& p.vel.in_bounds(VEL_SCAN_LIMIT as int)
    &&& p.pos.in_bounds(POS_SCAN_LIMIT as int)
}

pub open spec fn group_ok(gr: GroupModel) -> bool {
    &&& gr.members.len() <= MAX_BODIES
    &&& info_ok(gr.largest)
    &&& forall|k: int| 0 <= k < gr.members.len() ==> info_ok(#[trigger] gr.members[k])
    &&& group_total_mass(gr) <= MASS_LIMIT
}

pub open spec fn groups_ok(groups: Seq<GroupModel>) -> bool {
    forall|i: int| 0 <= i < groups.len() ==> group_ok(#[trigger] groups[i])
}

/// No group's survivor is recorded as a member of any group: the resolver
/// then destroys exactly the members and never a survivor.
pub open spec fn no_survivor_is_member(groups: Seq<GroupModel>) -> bool {
    forall|g1: int, g2: int, k: int|
        0 <= g1 < groups.len() && 0 <= g2 < groups.len() && 0 <= k < groups[g2].members.len()
            ==> (#[trigger] groups[g1]).largest.entity != (#[trigger] groups[g2].members[k]).entity
}

/// Member sums of a well-bounded group stay within machine range.
pub proof fn lemma_sums_bounds(s: Seq<InfoModel>)
    requires
        forall|k: int| 0 <= k < s.len() ==> info_ok(#[trigger] s[k]),
        s.len() <= MAX_BODIES,
    ensures
        0 <= sum_mass(s) <= s.len() * (MASS_LIMIT as int),
        sum_momentum(s).in_bounds(s.len() * 0x40_0000_0000int),
        sum_moment(s).in_bounds(s.len() * 0x4000_0000_0000int),
    decreases s.len(),
{
    if s.len() > 0 {
        assert(forall|k: int|
            0 <= k < s.len() - 1 ==> #[trigger] s.drop_first()[k] == s[k + 1]);
        lemma_sums_bounds(s.drop_first());
        let h = s[0];
        assert(abs1(h.mass * h.vel.x) <= 0x40_0000_0000int && abs1(h.mass * h.vel.y)
            <= 0x40_0000_0000int && abs1(h.mass * h.vel.z) <= 0x40_0000_0000int)
            by (nonlinear_arith)
            requires
                1 <= h.mass <= 0x2000,
                h.vel.in_bounds(0x200_0000int),
        ;
        assert(abs1(h.mass * h.pos.x) <= 0x4000_0000_0000int && abs1(h.mass * h.pos.y)
            <= 0x4000_0000_0000int && abs1(h.mass * h.pos.z) <= 0x4000_0000_0000int)
            by (nonlinear_arith)
            requires
                1 <= h.mass <= 0x2000,
                h.pos.in_bounds(0x2000_0000int),
        ;
    }
}

/// The merged survivor: conserved total mass, the radius that mass dictates,
/// velocity from conserved momentum, position at the center of mass. The
/// survivor keeps its identity and its force accumulator.
pub open spec fn merged_body(gr: GroupModel, b: BodyModel) -> BodyModel {
    let tm = group_total_mass(gr);
    BodyModel {
        id: b.id,
        position: group_moment(gr).div_all(tm),
        velocity: group_momentum(gr).div_all(tm),
        mass: tm,
        radius: radius_of_mass(tm),
        net_force: b.net_force,
    }
}

/// Resolve one body against the group table: a group's survivor takes the
/// merged state, any other body passes through unchanged.
pub open spec fn resolve_body(groups: Seq<GroupModel>, b: BodyModel) -> BodyModel {
    let gi = find_largest(groups, b.id);
    if gi >= 0 {
        merged_body(groups[gi], b)
    } else {
        b
    }
}

/// Resolve the whole body sequence: group members are destroyed, survivors
/// take the merged state, everything else passes through, in order.
pub open spec fn resolve_bodies(groups: Seq<GroupModel>, bodies: Seq<BodyModel>) -> Seq<BodyModel>
    decreases bodies.len(),
{
    if bodies.len() == 0 {
        Seq::empty()
    } else {
        let rest = resolve_bodies(groups, bodies.drop_first());
        if is_member(groups, bodies[0].id) {
            rest
        } else {
            seq![resolve_body(groups, bodies[0])] + rest
        }
    }
}

/// Resolving one more body appends its outcome.
pub proof fn lemma_resolve_snoc(groups: Seq<GroupModel>, s: Seq<BodyModel>, b: BodyModel)
    ensures
        resolve_bodies(groups, s.push(b)) == if is_member(groups, b.id) {
            resolve_bodies(groups, s)
        } else {
            resolve_bodies(groups, s).push(resolve_body(groups, b))
        },
    decreases s.len(),
{
    if s.len() == 0 {
        assert(s.push(b)[0] == b);
        assert(s.push(b).drop_first() =~= Seq::<BodyModel>::empty());
        assert(resolve_bodies(groups, s) =~= Seq::<BodyModel>::empty());
        assert(resolve_bodies(groups, s.push(b)) == if is_member(groups, b.id) {
            resolve_bodies(groups, Seq::<BodyModel>::empty())
        } else {
            seq![resolve_body(groups, b)] + resolve_bodies(groups, Seq::<BodyModel>::empty())
        });
        if !is_member(groups, b.id) {
            assert(seq![resolve_body(groups, b)] + Seq::<BodyModel>::empty() =~= resolve_bodies(
                groups,
                s,
            ).push(resolve_body(groups, b)));
        }
    } else {
        assert(s.push(b)[0] == s[0]);
        assert(s.push(b).drop_first() =~= s.drop_first().push(b));
        lemma_resolve_snoc(groups, s.drop_first(), b);
        assert(resolve_bodies(groups, s.push(b)) == if is_member(groups, s[0].id) {
            resolve_bodies(groups, s.drop_first().push(b))
        } else {
            seq![resolve_body(groups, s[0])] + resolve_bodies(groups, s.drop_first().push(b))
        });
        assert(resolve_bodies(groups, s) == if is_member(groups, s[0].id) {
            resolve_bodies(groups, s.drop_first())
        } else {
            seq![resolve_body(groups, s[0])] + resolve_bodies(groups, s.drop_first())
        });
        if !is_member(groups, s[0].id) && !is_member(groups, b.id) {
            assert(seq![resolve_body(groups, s[0])] + resolve_bodies(
                groups,
                s.drop_first(),
            ).push(resolve_body(groups, b)) =~= (seq![resolve_body(groups, s[0])]
                + resolve_bodies(groups, s.drop_first())).push(resolve_body(groups, b)));
        }
    }
}

/// Whether some body in the sequence carries `id`.
pub open spec fn has_id(s: Seq<BodyModel>, id: int) -> bool {
    exists|k: int| 0 <= k < s.len() && s[k].id == id
}

/// Resolution destroys only members: every body not recorded as a member is
/// still present (under its own id) after resolution.
pub proof fn lemma_resolve_keeps_nonmembers(groups: Seq<GroupModel>, s: Seq<BodyModel>)
    ensures
        forall|k: int|
            0 <= k < s.len() && !is_member(groups, (#[trigger] s[k]).id) ==> has_id(
                resolve_bodies(groups, s),
                s[k].id,
            ),
    decreases s.len(),
{
    if s.len() > 0 {
        let rest = s.drop_first();
        assert(forall|k: int| 0 <= k < rest.len() ==> #[trigger] rest[k] == s[k + 1]);
        lemma_resolve_keeps_nonmembers(groups, rest);
        let r = resolve_bodies(groups, s);
        let rr = resolve_bodies(groups, rest);
        assert forall|k: int|
            0 <= k < s.len() && !is_member(groups, (#[trigger] s[k]).id) implies has_id(
            r,
            s[k].id,
        ) by {
            if k == 0 {
                assert(r[0] == resolve_body(groups, s[0]));
                assert(r[0].id == s[0].id);
            } else {
                assert(rest[k - 1] == s[k]);
                assert(has_id(rr, s[k].id));
                let w = choose|w: int| 0 <= w < rr.len() && (#[trigger] rr[w]).id == s[k].id;
                if is_member(groups, s[0].id) {
                    assert(r[w] == rr[w]);
                } else {
                    assert(r[w + 1] == rr[w]);
                }
            }
        }
    }
}

/// Resolution keeps identities: every surviving id was already present, and
/// distinct bodies stay distinct.
pub proof fn lemma_resolve_ids(groups: Seq<GroupModel>, s: Seq<BodyModel>)
    requires
        forall|k1: int, k2: int|
            0 <= k1 < k2 < s.len() ==> (#[trigger] s[k1]).id != (#[trigger] s[k2]).id,
    ensures
        forall|k: int|
            0 <= k < resolve_bodies(groups, s).len() ==> has_id(
                s,
                (#[trigger] resolve_bodies(groups, s)[k]).id,
            ),
        forall|k1: int, k2: int|
            0 <= k1 < k2 < resolve_bodies(groups, s).len() ==> (#[trigger] resolve_bodies(
                groups,
                s,
            )[k1]).id != (#[trigger] resolve_bodies(groups, s)[k2]).id,
    decreases s.len(),
{
    if s.len() > 0 {
        let rest = s.drop_first();
        assert(forall|k: int| 0 <= k < rest.len() ==> #[trigger] rest[k] == s[k + 1]);
        lemma_resolve_ids(groups, rest);
        let r = resolve_bodies(groups, s);
        let rr = resolve_bodies(groups, rest);
        assert(forall|k: int|
            0 <= k < rr.len() && has_id(rest, (#[trigger] rr[k]).id) ==> has_id(s, rr[k].id));
        if !is_member(groups, s[0].id) {
            assert(r == seq![resolve_body(groups, s[0])] + rr);
            assert(r[0].id == s[0].id);
            assert(forall|k: int| 1 <= k < r.len() ==> #[trigger] r[k] == rr[k - 1]);
            assert forall|k: int| 1 <= k < r.len() implies (#[trigger] r[k]).id != r[0].id by {
                assert(has_id(rest, rr[k - 1].id));
                let w = choose|w: int| 0 <= w < rest.len() && rest[w].id == rr[k - 1].id;
                assert(s[w + 1].id == rr[k - 1].id);
            }
        }
    }
}

impl CollisionGroup {
    /// Conserved totals of this group: total mass, total momentum, and total
    /// mass moment, over the survivor and every member snapshot.
    pub fn totals(&self) -> (r: (Mass, Momentum, Moment))
        requires
            group_ok(self@),
        ensures
            r.0@ == group_total_mass(self@),
            r.1@ == group_momentum(self@),
            r.2@ == group_moment(self@),
            1 <= r.0@ <= MASS_LIMIT,
            r.1@.in_bounds(0x10_0000_0000_0000int),
            r.2@.in_bounds(0x1000_0000_0000_0000int),
    {
        let ghost members = self@.members;
        proof {
            lemma_sums_bounds(members);
            let l = self@.largest;
            assert(abs1(l.mass * l.vel.x) <= 0x40_0000_0000int && abs1(l.mass * l.vel.y)
                <= 0x40_0000_0000int && abs1(l.mass * l.vel.z) <= 0x40_0000_0000int)
                by (nonlinear_arith)
                requires
                    1 <= l.mass <= 0x2000,
                    l.vel.in_bounds(0x200_0000int),
            ;
            assert(abs1(l.mass * l.pos.x) <= 0x4000_0000_0000int && abs1(l.mass * l.pos.y)
                <= 0x4000_0000_0000int && abs1(l.mass * l.pos.z) <= 0x4000_0000_0000int)
                by (nonlinear_arith)
                requires
                    1 <= l.mass <= 0x2000,
                    l.pos.in_bounds(0x2000_0000int),
            ;
        }
        let mut tm: Mass = self.largest.mass;
        let mut mom: Momentum = self.largest.mass.times_velocity(self.largest.vel);
        let mut mmt: Moment = self.largest.mass.times_vec(self.largest.pos);
        let n = self.members.len();
        let mut k: usize = 0;
        while k < n
            invariant
                k <= n,
                n == self.members@.len(),
                members == self@.members,
                members.len() == n,
                group_ok(self@),
                forall|i: int| 0 <= i < members.len() ==> info_ok(#[trigger] members[i]),
                tm@ == self@.largest.mass + sum_mass(members.take(k as int)),
                mom@ == self@.largest.vel.scale(self@.largest.mass).add(
                    sum_momentum(members.take(k as int)),
                ),
                mmt@ == self@.largest.pos.scale(self@.largest.mass).add(
                    sum_moment(members.take(k as int)),
                ),
                1 <= tm@ <= MASS_LIMIT + (k as int) * (MASS_LIMIT as int),
                mom@.in_bounds(0x40_0000_0000int + (k as int) * 0x40_0000_0000int),
                mmt@.in_bounds(0x4000_0000_0000int + (k as int) * 0x4000_0000_0000int),
            decreases n - k,
        {
            let p = self.members[k];
            proof {
                assert(p@ == members[k as int]);
                assert(members.take(k as int + 1) =~= members.take(k as int).push(
                    members[k as int],
                ));
                lemma_sums_snoc(members.take(k as int), members[k as int]);
                lemma_sums_bounds(members.take(k as int));
                assert(forall|i: int|
                    0 <= i < k as int ==> #[trigger] members.take(k as int)[i] == members[i]);
                assert(abs1(p@.mass * p@.vel.x) <= 0x40_0000_0000int && abs1(p@.mass * p@.vel.y)
                    <= 0x40_0000_0000int && abs1(p@.mass * p@.vel.z) <= 0x40_0000_0000int)
                    by (nonlinear_arith)
                    requires
                        1 <= p@.mass <= 0x2000,
                        p@.vel.in_bounds(0x200_0000int),
                ;
                assert(abs1(p@.mass * p@.pos.x) <= 0x4000_0000_0000int && abs1(
                    p@.mass * p@.pos.y,
                ) <= 0x4000_0000_0000int && abs1(p@.mass * p@.pos.z) <= 0x4000_0000_0000int)
                    by (nonlinear_arith)
                    requires
                        1 <= p@.mass <= 0x2000,
                        p@.pos.in_bounds(0x2000_0000int),
                ;
            }
            tm = tm.add(p.mass);
            mom = mom.add(p.mass.times_velocity(p.vel));
            mmt = mmt.add(p.mass.times_vec(p.pos));
            k += 1;
        }
        proof {
            assert(members.take(n as int) =~= members);
            // The group total is bounded by `group_ok`.
            assert(tm@ == group_total_mass(self@));
        }
        (tm, mom, mmt)
    }
}

/// Mass conservation under merge: the resolved total mass is exactly the sum
/// of the survivor's and every member's mass, a pure summation with no loss
/// term.
pub proof fn lemma_merge_conserves_mass(gr: GroupModel, b: BodyModel)
    ensures
        merged_body(gr, b).mass == gr.largest.mass + sum_mass(gr.members),
{
}

/// Momentum conservation under merge: the resolved velocity times the total
/// mass equals the group's total momentum, up to the sub-unit truncation of
/// the final division — each component lands strictly within one total mass
/// of the exact value.
pub proof fn lemma_merge_conserves_momentum(gr: GroupModel, b: BodyModel)
    requires
        group_total_mass(gr) >= 1,
    ensures
        abs1(merged_body(gr, b).velocity.x * group_total_mass(gr) - group_momentum(gr).x)
            < group_total_mass(gr),
        abs1(merged_body(gr, b).velocity.y * group_total_mass(gr) - group_momentum(gr).y)
            < group_total_mass(gr),
        abs1(merged_body(gr, b).velocity.z * group_total_mass(gr) - group_momentum(gr).z)
            < group_total_mass(gr),
{
    let tm = group_total_mass(gr);
    let p = group_momentum(gr);
    lemma_div_tz_remainder(p.x, tm);
    lemma_div_tz_remainder(p.y, tm);
    lemma_div_tz_remainder(p.z, tm);
    assert(crate::math::div_tz(p.x, tm) * tm == tm * crate::math::div_tz(p.x, tm))
        by (nonlinear_arith);
    assert(crate::math::div_tz(p.y, tm) * tm == tm * crate::math::div_tz(p.y, tm))
        by (nonlinear_arith);
    assert(crate::math::div_tz(p.z, tm) * tm == tm * crate::math::div_tz(p.z, tm))
        by (nonlinear_arith);
}


impl crate::planet::SimulationState {
    /// The Collision Resolver: runs once per step after the full pairwise
    /// scan. Every group's survivor takes the conserved total mass, the
    /// radius that mass dictates, the velocity of the conserved momentum and
    /// the center-of-mass position; every group member is destroyed — and
    /// only members are ever destroyed: a survivor is never also recorded as
    /// a member, so every body outside the member lists is still live
    /// afterwards. The group table is cleared for the next step.
    pub fn collision_resolution_system(&mut self)
        requires
            old(self).wf(),
            groups_ok(old(self).collision_groups@),
            no_survivor_is_member(old(self).collision_groups@),
        ensures
            forall|k: int|
                0 <= k < old(self).models().len() && !is_member(
                    old(self).collision_groups@,
                    (#[trigger] old(self).models()[k]).id,
                ) ==> has_id(
                    crate::planet::bodies_model(final(self).bodies@),
                    old(self).models()[k].id,
                ),
            crate::planet::bodies_model(final(self).bodies@) == resolve_bodies(
                old(self).collision_groups@,
                crate::planet::bodies_model(old(self).bodies@),
            ),
            final(self).collision_groups@ == Seq::<GroupModel>::empty(),
            final(self).constants == old(self).constants,
            final(self).next_id == old(self).next_id,
            final(self).bodies@.len() <= old(self).bodies@.len(),
            forall|k: int|
                0 <= k < final(self).models().len() ==> wf_body(
                    #[trigger] final(self).models()[k],
                ),
            forall|k1: int, k2: int|
                0 <= k1 < k2 < final(self).models().len() ==> (#[trigger] final(self).models()[k1])
                    .id != (#[trigger] final(self).models()[k2]).id,
            forall|k: int|
                0 <= k < final(self).models().len() ==> has_id(
                    crate::planet::bodies_model(old(self).bodies@),
                    (#[trigger] final(self).models()[k]).id,
                ),
    {
        let ghost groups0 = old(self).collision_groups@;
        let ghost models0 = old(self).models();
        let n = self.bodies.len();
        let ghost nn = n as int;
        let mut out: Vec<crate::planet::Body> = Vec::new();
        proof {
            assert(models0.take(0) =~= Seq::<BodyModel>::empty());
            assert(crate::planet::bodies_model(out@) =~= resolve_bodies(
                groups0,
                models0.take(0),
            ));
        }
        let mut k: usize = 0;
        while k < n
            invariant
                k <= n,
                n == self.bodies@.len(),
                nn == n as int,
                self == old(self),
                models0 == old(self).models(),
                groups0 == old(self).collision_groups@,
                models0.len() == nn,
                old(self).wf(),
                groups_ok(groups0),
                out@.len() <= k,
                crate::planet::bodies_model(out@) == resolve_bodies(groups0, models0.take(k as int)),
                forall|i: int| 0 <= i < out@.len() ==> wf_body((#[trigger] out@[i])@),
            decreases n - k,
        {
            let ghost kk = k as int;
            let b = self.bodies[k];
            let ghost bm = models0[kk];
            proof {
                assert(b@ == models0[kk]);
                assert(models0.take(kk + 1) =~= models0.take(kk).push(bm));
                lemma_resolve_snoc(groups0, models0.take(kk), bm);
            }
            if self.collision_groups.contains_member(b.id) {
                // Destroyed: this body was merged into some group's survivor.
            } else {
                let found = self.collision_groups.find_group(b.id);
                match found {
                    Some(gi) => {
                        let ghost gii = gi as int;
                        proof {
                            assert(self.collision_groups@[gii]
                                == self.collision_groups.groups@[gii]@);
                            assert(group_ok(groups0[gii]));
                        }
                        let grp = &self.collision_groups.groups[gi];
                        let (tm, mom, mmt) = grp.totals();
                        let new_v = mom.div_mass(tm);
                        let com = mmt.div_mass(tm);
                        let rad = radius_from_mass(tm);
                        let nb = crate::planet::Body {
                            id: b.id,
                            position: com,
                            velocity: new_v,
                            mass: tm,
                            radius: rad,
                            net_force: b.net_force,
                        };
                        proof {
                            assert(nb@ == merged_body(groups0[gii], bm));
                            assert(nb@ == resolve_body(groups0, bm));
                            assert(wf_body(nb@));
                        }
                        out.push(nb);
                        proof {
                            assert(crate::planet::bodies_model(out@) =~= resolve_bodies(
                                groups0,
                                models0.take(kk),
                            ).push(resolve_body(groups0, bm)));
                        }
                    },
                    None => {
                        out.push(b);
                        proof {
                            assert(resolve_body(groups0, bm) == bm);
                            assert(crate::planet::bodies_model(out@) =~= resolve_bodies(
                                groups0,
                                models0.take(kk),
                            ).push(resolve_body(groups0, bm)));
                        }
                    },
                }
            }
            k += 1;
        }
        self.bodies = out;
        self.collision_groups.groups.clear();
        proof {
            assert(models0.take(nn) =~= models0);
            assert(self.collision_groups@ =~= Seq::<GroupModel>::empty());
            lemma_resolve_ids(groups0, models0);
            lemma_resolve_keeps_nonmembers(groups0, models0);
        }
    }
}


/// Whether some snapshot in `members` carries `id`.
pub open spec fn in_members(members: Seq<InfoModel>, id: int) -> bool {
    exists|k: int| 0 <= k < members.len() && members[k].entity == id
}

/// Total mass of the bodies in `s` whose id appears in `members`.
pub open spec fn members_mass_in(members: Seq<InfoModel>, s: Seq<BodyModel>) -> int
    decreases s.len(),
{
    if s.len() == 0 {
        0
    } else {
        (if in_members(members, s[0].id) {
            s[0].mass
        } else {
            0
        }) + members_mass_in(members, s.drop_first())
    }
}

/// Total mass of the bodies in `s` that carry exactly the id `e`.
pub open spec fn single_id_mass_in(e: int, s: Seq<BodyModel>) -> int
    decreases s.len(),
{
    if s.len() == 0 {
        0
    } else {
        (if s[0].id == e {
            s[0].mass
        } else {
            0
        }) + single_id_mass_in(e, s.drop_first())
    }
}

/// `c` counted once for every body in `s` carrying the id `e`.
pub open spec fn credit_for_id(e: int, c: int, s: Seq<BodyModel>) -> int
    decreases s.len(),
{
    if s.len() == 0 {
        0
    } else {
        (if s[0].id == e {
            c
        } else {
            0
        }) + credit_for_id(e, c, s.drop_first())
    }
}

/// Total mass of the bodies in `s` recorded as members of any group.
pub open spec fn lost_mass(groups: Seq<GroupModel>, s: Seq<BodyModel>) -> int
    decreases s.len(),
{
    if s.len() == 0 {
        0
    } else {
        (if is_member(groups, s[0].id) {
            s[0].mass
        } else {
            0
        }) + lost_mass(groups, s.drop_first())
    }
}

/// Total member mass credited to the surviving bodies present in `s`.
pub open spec fn gained_mass(groups: Seq<GroupModel>, s: Seq<BodyModel>) -> int
    decreases s.len(),
{
    if s.len() == 0 {
        0
    } else {
        ({
            let gi = find_largest(groups, s[0].id);
            if gi >= 0 {
                sum_mass(groups[gi].members)
            } else {
                0
            }
        }) + gained_mass(groups, s.drop_first())
    }
}

/// Total member mass over all groups.
pub open spec fn total_members_mass(groups: Seq<GroupModel>) -> int
    decreases groups.len(),
{
    if groups.len() == 0 {
        0
    } else {
        sum_mass(groups[0].members) + total_members_mass(groups.drop_first())
    }
}

/// Resolution moves exactly the recorded member masses: what the body list
/// loses in destroyed members it gains on the surviving bodies.
proof fn lemma_resolve_mass_decomposition(groups: Seq<GroupModel>, s: Seq<BodyModel>)
    requires
        forall|k: int|
            0 <= k < s.len() ==> !(is_member(groups, (#[trigger] s[k]).id) && has_largest(
                groups,
                s[k].id,
            )),
        forall|k: int|
            0 <= k < s.len() && find_largest(groups, (#[trigger] s[k]).id) >= 0 ==> groups[
                find_largest(groups, s[k].id)
            ].largest.mass == s[k].mass,
    ensures
        sum_masses(resolve_bodies(groups, s)) == sum_masses(s) - lost_mass(groups, s)
            + gained_mass(groups, s),
    decreases s.len(),
{
    if s.len() > 0 {
        let rest = s.drop_first();
        assert(forall|k: int| 0 <= k < rest.len() ==> #[trigger] rest[k] == s[k + 1]);
        lemma_resolve_mass_decomposition(groups, rest);
        let b = s[0];
        lemma_find_largest(groups, b.id);
        if is_member(groups, b.id) {
            assert(find_largest(groups, b.id) == -1);
        } else {
            let gi = find_largest(groups, b.id);
            if gi >= 0 {
                let r = resolve_bodies(groups, s);
                let rr = resolve_bodies(groups, rest);
                assert(r == seq![resolve_body(groups, b)] + rr);
                assert(r[0] == resolve_body(groups, b));
                assert(r.drop_first() =~= rr);
                assert(sum_masses(r) == resolve_body(groups, b).mass + sum_masses(rr));
                assert(resolve_body(groups, b).mass == groups[gi].largest.mass + sum_mass(
                    groups[gi].members,
                ));
            } else {
                let r = resolve_bodies(groups, s);
                let rr = resolve_bodies(groups, rest);
                assert(r == seq![b] + rr);
                assert(r[0] == b);
                assert(r.drop_first() =~= rr);
                assert(sum_masses(r) == b.mass + sum_masses(rr));
            }
        }
    }
}

/// With no body carrying the id, nothing is credited.
proof fn lemma_credit_absent(e: int, c: int, s: Seq<BodyModel>)
    requires
        forall|k: int| 0 <= k < s.len() ==> (#[trigger] s[k]).id != e,
    ensures
        credit_for_id(e, c, s) == 0,
    decreases s.len(),
{
    if s.len() > 0 {
        assert(forall|k: int| 0 <= k < s.len() - 1 ==> #[trigger] s.drop_first()[k] == s[k + 1]);
        lemma_credit_absent(e, c, s.drop_first());
    }
}

/// With exactly one body carrying the id, the credit is counted once.
proof fn lemma_credit_once(e: int, c: int, s: Seq<BodyModel>)
    requires
        exists|k: int| 0 <= k < s.len() && (#[trigger] s[k]).id == e,
        forall|k1: int, k2: int|
            0 <= k1 < k2 < s.len() ==> (#[trigger] s[k1]).id != (#[trigger] s[k2]).id,
    ensures
        credit_for_id(e, c, s) == c,
    decreases s.len(),
{
    let rest = s.drop_first();
    assert(forall|k: int| 0 <= k < rest.len() ==> #[trigger] rest[k] == s[k + 1]);
    if s[0].id == e {
        assert(forall|k: int| 0 <= k < rest.len() ==> (#[trigger] rest[k]).id != e);
        lemma_credit_absent(e, c, rest);
    } else {
        let w = choose|k: int| 0 <= k < s.len() && (#[trigger] s[k]).id == e;
        assert(rest[w - 1].id == e);
        lemma_credit_once(e, c, rest);
    }
}

/// With no body carrying the id, no mass is collected for it.
proof fn lemma_single_id_absent(e: int, s: Seq<BodyModel>)
    requires
        forall|k: int| 0 <= k < s.len() ==> (#[trigger] s[k]).id != e,
    ensures
        single_id_mass_in(e, s) == 0,
    decreases s.len(),
{
    if s.len() > 0 {
        assert(forall|k: int| 0 <= k < s.len() - 1 ==> #[trigger] s.drop_first()[k] == s[k + 1]);
        lemma_single_id_absent(e, s.drop_first());
    }
}

/// A snapshot of a body of `s` collects exactly that body's mass.
proof fn lemma_single_id_mass(p: InfoModel, s: Seq<BodyModel>)
    requires
        snapshot_of(s, p),
        forall|k1: int, k2: int|
            0 <= k1 < k2 < s.len() ==> (#[trigger] s[k1]).id != (#[trigger] s[k2]).id,
    ensures
        single_id_mass_in(p.entity, s) == p.mass,
    decreases s.len(),
{
    let rest = s.drop_first();
    assert(forall|k: int| 0 <= k < rest.len() ==> #[trigger] rest[k] == s[k + 1]);
    let bi = choose|bi: int|
        0 <= bi < s.len() && (#[trigger] s[bi]).id == p.entity && p == crate::planet::info_of(
            s[bi],
        );
    if s[0].id == p.entity {
        assert(bi == 0);
        assert(s[0].mass == p.mass);
        assert(forall|k: int| 0 <= k < rest.len() ==> (#[trigger] rest[k]).id != p.entity);
        lemma_single_id_absent(p.entity, rest);
    } else {
        assert(bi >= 1);
        assert(rest[bi - 1] == s[bi]);
        assert(snapshot_of(rest, p));
        lemma_single_id_mass(p, rest);
    }
}

/// Splitting a member list at its head splits the collected mass, as long as
/// the head's id does not recur.
proof fn lemma_members_mass_split(members: Seq<InfoModel>, s: Seq<BodyModel>)
    requires
        members.len() > 0,
        forall|k: int| 1 <= k < members.len() ==> (#[trigger] members[k]).entity
            != members[0].entity,
    ensures
        members_mass_in(members, s) == single_id_mass_in(members[0].entity, s) + members_mass_in(
            members.drop_first(),
            s,
        ),
    decreases s.len(),
{
    if s.len() > 0 {
        lemma_members_mass_split(members, s.drop_first());
        let id = s[0].id;
        let mrest = members.drop_first();
        assert(forall|k: int|
            0 <= k < mrest.len() ==> #[trigger] mrest[k] == members[k + 1]);
        if in_members(members, id) {
            let w = choose|k: int| 0 <= k < members.len() && (#[trigger] members[k]).entity == id;
            if w == 0 {
                assert(id == members[0].entity);
                assert(!in_members(mrest, id));
            } else {
                assert(mrest[w - 1].entity == id);
                assert(in_members(mrest, id));
                assert(id != members[0].entity);
            }
        } else {
            assert(id != members[0].entity);
            assert(!in_members(mrest, id)) by {
                if in_members(mrest, id) {
                    let w = choose|k: int|
                        0 <= k < mrest.len() && (#[trigger] mrest[k]).entity == id;
                    assert(members[w + 1].entity == id);
                }
            }
        }
    }
}

/// The mass collected from the bodies recorded in a distinct member list is
/// exactly the snapshot sum of that list.
proof fn lemma_members_mass_eq(members: Seq<InfoModel>, s: Seq<BodyModel>)
    requires
        forall|k: int| 0 <= k < members.len() ==> snapshot_of(s, #[trigger] members[k]),
        forall|k1: int, k2: int|
            0 <= k1 < k2 < members.len() ==> (#[trigger] members[k1]).entity != (
            #[trigger] members[k2]).entity,
        forall|k1: int, k2: int|
            0 <= k1 < k2 < s.len() ==> (#[trigger] s[k1]).id != (#[trigger] s[k2]).id,
    ensures
        members_mass_in(members, s) == sum_mass(members),
    decreases members.len(),
{
    if members.len() == 0 {
        assert(members =~= Seq::<InfoModel>::empty());
        lemma_members_empty(s);
        assert(sum_mass(members) == 0);
    } else {
        assert(forall|k: int|
            1 <= k < members.len() ==> (#[trigger] members[k]).entity != members[0].entity);
        lemma_members_mass_split(members, s);
        assert(snapshot_of(s, members[0]));
        lemma_single_id_mass(members[0], s);
        let mrest = members.drop_first();
        assert(forall|k: int|
            0 <= k < mrest.len() ==> #[trigger] mrest[k] == members[k + 1]);
        assert(forall|k1: int, k2: int|
            0 <= k1 < k2 < mrest.len() ==> (#[trigger] mrest[k1]).entity != (
            #[trigger] mrest[k2]).entity);
        assert(forall|k: int| 0 <= k < mrest.len() ==> snapshot_of(s, #[trigger] mrest[k]));
        lemma_members_mass_eq(mrest, s);
        assert(sum_mass(members) == members[0].mass + sum_mass(mrest));
    }
}

/// An empty member list collects nothing.
proof fn lemma_members_empty(s: Seq<BodyModel>)
    ensures
        members_mass_in(Seq::<InfoModel>::empty(), s) == 0,
    decreases s.len(),
{
    if s.len() > 0 {
        lemma_members_empty(s.drop_first());
    }
}

/// Lost mass splits by group, as long as no body is a member of two groups.
proof fn lemma_lost_mass_split(groups: Seq<GroupModel>, s: Seq<BodyModel>)
    requires
        groups.len() > 0,
        forall|k1: int, g2: int, k2: int|
            0 <= k1 < groups[0].members.len() && 1 <= g2 < groups.len() && 0 <= k2
                < groups[g2].members.len() ==> (#[trigger] groups[0].members[k1]).entity != (
            #[trigger] groups[g2].members[k2]).entity,
    ensures
        lost_mass(groups, s) == members_mass_in(groups[0].members, s) + lost_mass(
            groups.drop_first(),
            s,
        ),
    decreases s.len(),
{
    if s.len() > 0 {
        lemma_lost_mass_split(groups, s.drop_first());
        let id = s[0].id;
        let grest = groups.drop_first();
        assert(forall|k: int|
            0 <= k < grest.len() ==> #[trigger] grest[k] == groups[k + 1]);
        if is_member(groups, id) {
            let gi = choose|gi: int|
                0 <= gi < groups.len() && is_member_of(#[trigger] groups[gi], id);
            if gi == 0 {
                assert(in_members(groups[0].members, id));
                assert(!is_member(grest, id)) by {
                    if is_member(grest, id) {
                        let g2 = choose|g2: int|
                            0 <= g2 < grest.len() && is_member_of(#[trigger] grest[g2], id);
                        let k2 = choose|k2: int|
                            0 <= k2 < grest[g2].members.len() && grest[g2].members[k2].entity
                                == id;
                        let k1 = choose|k1: int|
                            0 <= k1 < groups[0].members.len()
                                && groups[0].members[k1].entity == id;
                        assert(groups[g2 + 1].members[k2].entity == id);
                    }
                }
            } else {
                assert(is_member_of(grest[gi - 1], id));
                assert(is_member(grest, id));
                assert(!in_members(groups[0].members, id)) by {
                    if in_members(groups[0].members, id) {
                        let k1 = choose|k1: int|
                            0 <= k1 < groups[0].members.len() && (#[trigger] groups[0].members[
                                k1
                            ]).entity == id;
                        let k2 = choose|k2: int|
                            0 <= k2 < groups[gi].members.len() && groups[gi].members[k2].entity
                                == id;
                    }
                }
            }
        } else {
            assert(!in_members(groups[0].members, id)) by {
                if in_members(groups[0].members, id) {
                    assert(is_member_of(groups[0], id));
                }
            }
            assert(!is_member(grest, id)) by {
                if is_member(grest, id) {
                    let g2 = choose|g2: int|
                        0 <= g2 < grest.len() && is_member_of(#[trigger] grest[g2], id);
                    assert(is_member_of(groups[g2 + 1], id));
                }
            }
        }
    }
}

/// Gained mass splits by group, as long as no two groups share a survivor.
proof fn lemma_gained_mass_split(groups: Seq<GroupModel>, s: Seq<BodyModel>)
    requires
        groups.len() > 0,
        forall|g2: int|
            1 <= g2 < groups.len() ==> (#[trigger] groups[g2]).largest.entity
                != groups[0].largest.entity,
    ensures
        gained_mass(groups, s) == credit_for_id(
            groups[0].largest.entity,
            sum_mass(groups[0].members),
            s,
        ) + gained_mass(groups.drop_first(), s),
    decreases s.len(),
{
    if s.len() > 0 {
        lemma_gained_mass_split(groups, s.drop_first());
        let id = s[0].id;
        let grest = groups.drop_first();
        assert(forall|k: int|
            0 <= k < grest.len() ==> #[trigger] grest[k] == groups[k + 1]);
        lemma_find_largest(groups, id);
        lemma_find_largest(grest, id);
        if id == groups[0].largest.entity {
            assert(find_largest(groups, id) == 0);
            assert(!has_largest(grest, id)) by {
                if has_largest(grest, id) {
                    let g2 = choose|g2: int|
                        0 <= g2 < grest.len() && (#[trigger] grest[g2]).largest.entity == id;
                    assert(groups[g2 + 1].largest.entity == id);
                }
            }
        } else {
            let fi = find_largest(grest, id);
            if fi >= 0 {
                assert(find_largest(groups, id) == fi + 1);
                assert(groups[fi + 1] == grest[fi]);
            }
        }
    }
}

/// Under the scan invariant, the mass lost to destroyed members equals the
/// member mass credited to the survivors: both are the total member mass.
proof fn lemma_lost_equals_gained(groups: Seq<GroupModel>, bodies: Seq<BodyModel>)
    requires
        scan_inv(bodies, groups),
        forall|k1: int, k2: int|
            0 <= k1 < k2 < bodies.len() ==> (#[trigger] bodies[k1]).id != (
            #[trigger] bodies[k2]).id,
    ensures
        lost_mass(groups, bodies) == total_members_mass(groups),
        gained_mass(groups, bodies) == total_members_mass(groups),
    decreases groups.len(),
{
    if groups.len() == 0 {
        assert(groups =~= Seq::<GroupModel>::empty());
        lemma_lost_gained_empty(bodies);
    } else {
        let grest = groups.drop_first();
        assert(forall|k: int|
            0 <= k < grest.len() ==> #[trigger] grest[k] == groups[k + 1]);
        assert(scan_inv(bodies, grest));
        lemma_lost_equals_gained(grest, bodies);
        lemma_lost_mass_split(groups, bodies);
        lemma_gained_mass_split(groups, bodies);
        assert(forall|k: int|
            0 <= k < groups[0].members.len() ==> snapshot_of(
                bodies,
                #[trigger] groups[0].members[k],
            ));
        assert(forall|k1: int, k2: int|
            0 <= k1 < k2 < groups[0].members.len() ==> (#[trigger] groups[0].members[k1]).entity
                != (#[trigger] groups[0].members[k2]).entity);
        lemma_members_mass_eq(groups[0].members, bodies);
        assert(total_members_mass(groups) == sum_mass(groups[0].members) + total_members_mass(
            grest,
        ));
        // The survivor of the first group is a live body, exactly once.
        assert(snapshot_of(bodies, groups[0].largest));
        let bi = choose|bi: int|
            0 <= bi < bodies.len() && (#[trigger] bodies[bi]).id == groups[0].largest.entity
                && groups[0].largest == crate::planet::info_of(bodies[bi]);
        lemma_credit_once(groups[0].largest.entity, sum_mass(groups[0].members), bodies);
    }
}

/// With no groups, nothing is lost and nothing is gained.
proof fn lemma_lost_gained_empty(s: Seq<BodyModel>)
    ensures
        lost_mass(Seq::<GroupModel>::empty(), s) == 0,
        gained_mass(Seq::<GroupModel>::empty(), s) == 0,
    decreases s.len(),
{
    if s.len() > 0 {
        lemma_lost_gained_empty(s.drop_first());
        assert(!is_member(Seq::<GroupModel>::empty(), s[0].id));
        lemma_find_largest(Seq::<GroupModel>::empty(), s[0].id);
    }
}

/// Mass conservation across the whole resolver: resolving every merge group
/// built by the pairwise scan leaves the total mass of the simulation exactly
/// unchanged — members hand their mass to their survivor, pure summation.
pub proof fn lemma_resolution_conserves_mass(groups: Seq<GroupModel>, bodies: Seq<BodyModel>)
    requires
        scan_inv(bodies, groups),
        forall|k1: int, k2: int|
            0 <= k1 < k2 < bodies.len() ==> (#[trigger] bodies[k1]).id != (
            #[trigger] bodies[k2]).id,
    ensures
        sum_masses(resolve_bodies(groups, bodies)) == sum_masses(bodies),
{
    assert forall|k: int| 0 <= k < bodies.len() implies !(is_member(
        groups,
        (#[trigger] bodies[k]).id,
    ) && has_largest(groups, bodies[k].id)) by {
        if is_member(groups, bodies[k].id) && has_largest(groups, bodies[k].id) {
            let gi = choose|gi: int|
                0 <= gi < groups.len() && is_member_of(#[trigger] groups[gi], bodies[k].id);
            let mi = choose|mi: int|
                0 <= mi < groups[gi].members.len() && groups[gi].members[mi].entity == bodies[
                    k
                ].id;
            let g1 = choose|g1: int|
                0 <= g1 < groups.len() && (#[trigger] groups[g1]).largest.entity == bodies[k].id;
        }
    }
    assert forall|k: int|
        0 <= k < bodies.len() && find_largest(groups, (#[trigger] bodies[k]).id)
            >= 0 implies groups[find_largest(groups, bodies[k].id)].largest.mass == bodies[
        k
    ].mass by {
        lemma_find_largest(groups, bodies[k].id);
        let gi = find_largest(groups, bodies[k].id);
        assert(snapshot_of(bodies, groups[gi].largest));
        let bi = choose|bi: int|
            0 <= bi < bodies.len() && (#[trigger] bodies[bi]).id == groups[gi].largest.entity
                && groups[gi].largest == crate::planet::info_of(bodies[bi]);
        assert(bi == k);
    }
    lemma_resolve_mass_decomposition(groups, bodies);
    lemma_lost_equals_gained(groups, bodies);
}

} // verus!
