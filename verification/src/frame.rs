//! Topology of the planar truss searched by the structural problem.
//!
//! The joints are held by a type of the caller's choice, so the frame carries
//! positions through its moves without reading them; everything that measures a
//! distance or a force lives with the caller.
use vstd::prelude::*;

verus! {

/// Number of outer pipe radii in the section catalogue.
pub const SIZE_COUNT: usize = 10;
/// Section index given to every new member.
pub const DEFAULT_SIZE: usize = 4;
/// The leading joints (supports and load points) that no move changes.
pub const FIXED_JOINTS: usize = 5;
/// Upper bound on the number of joints of a design.
pub const MAX_JOINTS: usize = 30;
/// Number of nearest joints that a new joint is connected to.
pub const ATTACHED_NEIGHBORS: usize = 3;
/// Number of joints of the seed bridge.
pub const SEED_JOINTS: usize = 9;

/// A straight member between two joints, with its section index.
#[derive(Clone, Copy, Debug, PartialEq, Eq, Structural)]
pub struct Member {
    /// Index of the first joint.
    pub start: usize,
    /// Index of the second joint.
    pub end: usize,
    /// Index into the section catalogue.
    pub size: usize,
}

/// `m` joins joints `a` and `b`, in either direction.
pub open spec fn joins(m: Member, a: int, b: int) -> bool {
    (m.start == a && m.end == b) || (m.start == b && m.end == a)
}

/// `m` lies between two distinct existing joints and has a catalogue size.
pub open spec fn member_fits(m: Member, joint_count: int) -> bool {
    &&& m.start < joint_count
    &&& m.end < joint_count
    &&& m.start != m.end
    &&& m.size < SIZE_COUNT
}

/// Some member joins `a` and `b`.
pub open spec fn connected(members: Seq<Member>, a: int, b: int) -> bool {
    exists|i: int| 0 <= i < members.len() && #[trigger] joins(members[i], a, b)
}

/// Every member fits and no two members join the same pair of joints.
pub open spec fn members_fit(members: Seq<Member>, joint_count: int) -> bool {
    &&& forall|i: int| 0 <= i < members.len() ==> member_fits(#[trigger] members[i], joint_count)
    &&& forall|i: int, j: int|
        #![trigger members[i], members[j]]
        0 <= i < j < members.len() ==> !joins(members[i], members[j].start as int, members[j].end as int)
}

/// `m` touches joint `index` at either end.
pub open spec fn touches(m: Member, index: int) -> bool {
    m.start == index || m.end == index
}

/// A joint index after joint `index` is removed: the indices above it move down by one.
pub open spec fn renumber(joint: usize, index: int) -> usize {
    if joint > index { (joint - 1) as usize } else { joint }
}

/// What becomes of member `m` when joint `index` is removed: dropped if it touches
/// the joint, otherwise kept with both ends renumbered.
pub open spec fn survivor(m: Member, index: int) -> Option<Member> {
    if touches(m, index) {
        None
    } else {
        Some(Member { start: renumber(m.start, index), end: renumber(m.end, index), size: m.size })
    }
}

/// The members left after removing joint `index`, in their previous order.
pub open spec fn without_joint(members: Seq<Member>, index: int) -> Seq<Member> {
    members.filter_map(|m: Member| survivor(m, index))
}

/// A new member of the default size between `start` and `end`.
pub open spec fn new_member(start: usize, end: usize) -> Member {
    Member { start, end, size: DEFAULT_SIZE }
}

/// `p` orders before `q` lexicographically.
pub open spec fn pair_before(p: (usize, usize), q: (usize, usize)) -> bool {
    p.0 < q.0 || (p.0 == q.0 && p.1 < q.1)
}

/// `p` names two joints in increasing order that no member joins yet.
pub open spec fn open_pair(members: Seq<Member>, joint_count: int, p: (usize, usize)) -> bool {
    &&& p.0 < p.1 < joint_count
    &&& !connected(members, p.0 as int, p.1 as int)
}

/// `m` with its size moved one catalogue step.
pub open spec fn resized(m: Member, increase: bool) -> Member {
    Member { start: m.start, end: m.end, size: spec_next_size(m.size, increase) }
}

/// Every member of `members` moved one catalogue size in the same direction.
pub open spec fn all_resized(members: Seq<Member>, increase: bool) -> Seq<Member> {
    members.map_values(|m: Member| resized(m, increase))
}

/// The members that join a new joint, numbered `joint_count`, to the first
/// `ATTACHED_NEIGHBORS` joints of `order`.
pub open spec fn attachments(order: Seq<usize>, joint_count: usize) -> Seq<Member> {
    seq![
        new_member(order[0], joint_count),
        new_member(order[1], joint_count),
        new_member(order[2], joint_count),
    ]
}

/// The fixed leading joints are the same in `before` and `after`.
pub open spec fn keeps_fixed<P>(before: Seq<P>, after: Seq<P>) -> bool {
    after.take(FIXED_JOINTS as int) == before.take(FIXED_JOINTS as int)
}

/// Members of the seed bridge: bottom chord, top chord, then the diagonals from left to right.
pub open spec fn seed_members() -> Seq<Member> {
    seq![
        new_member(0, 1), new_member(1, 2), new_member(2, 3), new_member(3, 4),
        new_member(5, 6), new_member(6, 7), new_member(7, 8),
        new_member(0, 5), new_member(5, 1), new_member(1, 6), new_member(6, 2),
        new_member(2, 7), new_member(7, 3), new_member(3, 8), new_member(8, 4),
    ]
}

/// Joints of type `P` and the members between them.
#[derive(Clone, Debug)]
pub struct Frame<P> {
    joints: Vec<P>,
    members: Vec<Member>,
}

impl<P> Frame<P> {
    /// The joints, in index order.
    pub closed spec fn joint_seq(&self) -> Seq<P> {
        self.joints@
    }

    /// The members, in insertion order.
    pub closed spec fn member_seq(&self) -> Seq<Member> {
        self.members@
    }

    /// Joint count within bounds, and every member fitting without duplicates.
    pub open spec fn wf(&self) -> bool {
        &&& FIXED_JOINTS <= self.joint_seq().len() <= MAX_JOINTS
        &&& members_fit(self.member_seq(), self.joint_seq().len() as int)
    }

    /// The triangulated seed bridge on the given nine joints.
    pub fn seed(joints: Vec<P>) -> (f: Frame<P>)
        requires
            joints@.len() == SEED_JOINTS,
        ensures
            f.wf(),
            f.joint_seq() == joints@,
            f.member_seq() == seed_members(),
    {
        let members = vec![
            Member { start: 0, end: 1, size: DEFAULT_SIZE },
            Member { start: 1, end: 2, size: DEFAULT_SIZE },
            Member { start: 2, end: 3, size: DEFAULT_SIZE },
            Member { start: 3, end: 4, size: DEFAULT_SIZE },
            Member { start: 5, end: 6, size: DEFAULT_SIZE },
            Member { start: 6, end: 7, size: DEFAULT_SIZE },
            Member { start: 7, end: 8, size: DEFAULT_SIZE },
            Member { start: 0, end: 5, size: DEFAULT_SIZE },
            Member { start: 5, end: 1, size: DEFAULT_SIZE },
            Member { start: 1, end: 6, size: DEFAULT_SIZE },
            Member { start: 6, end: 2, size: DEFAULT_SIZE },
            Member { start: 2, end: 7, size: DEFAULT_SIZE },
            Member { start: 7, end: 3, size: DEFAULT_SIZE },
            Member { start: 3, end: 8, size: DEFAULT_SIZE },
            Member { start: 8, end: 4, size: DEFAULT_SIZE },
        ];
        proof {
            lemma_seed_fits();
            assert(members@ == seed_members());
        }
        Frame { joints, members }
    }

    /// Remove joint `index`, drop the members that touch it and renumber the others.
    pub fn remove_joint_at(&mut self, index: usize)
        requires
            old(self).wf(),
            FIXED_JOINTS <= index < old(self).joint_seq().len(),
        ensures
            final(self).wf(),
            keeps_fixed(old(self).joint_seq(), final(self).joint_seq()),
            final(self).joint_seq() == old(self).joint_seq().remove(index as int),
            final(self).member_seq() == without_joint(old(self).member_seq(), index as int),
    {
        proof {
            lemma_without_joint_fits(self.members@, self.joints@.len() as int, index as int);
        }
        self.joints.remove(index);
        let mut kept: Vec<Member> = Vec::new();
        let mut k: usize = 0;
        while k < self.members.len()
            invariant
                k <= self.members@.len(),
                self.members@ == old(self).members@,
                kept@ == without_joint(self.members@.take(k as int), index as int),
            decreases self.members@.len() - k,
        {
            let m = self.members[k];
            proof {
                let prefix = self.members@.take(k as int + 1);
                assert(prefix.drop_last() == self.members@.take(k as int));
                assert(prefix.last() == m);
            }
            if m.start != index && m.end != index {
                let start = if m.start > index { m.start - 1 } else { m.start };
                let end = if m.end > index { m.end - 1 } else { m.end };
                kept.push(Member { start, end, size: m.size });
            }
            k += 1;
        }
        proof {
            assert(self.members@.take(k as int) == self.members@);
        }
        self.members = kept;
        assert(self.joint_seq().take(FIXED_JOINTS as int) == old(self).joint_seq().take(FIXED_JOINTS as int));
    }

    /// Number of joints, including the fixed ones.
    pub fn joint_count(&self) -> (n: usize)
        ensures
            n == self.joint_seq().len(),
    {
        self.joints.len()
    }

    /// Number of members.
    pub fn member_count(&self) -> (n: usize)
        ensures
            n == self.member_seq().len(),
    {
        self.members.len()
    }

    /// The joints, in index order.
    pub fn joints(&self) -> (j: &Vec<P>)
        ensures
            j@ == self.joint_seq(),
    {
        &self.joints
    }

    /// The members, in insertion order.
    pub fn members(&self) -> (m: &Vec<Member>)
        ensures
            m@ == self.member_seq(),
    {
        &self.members
    }

    /// Whether some member joins `a` and `b`.
    pub fn is_connected(&self, a: usize, b: usize) -> (r: bool)
        ensures
            r == connected(self.member_seq(), a as int, b as int),
    {
        let mut k: usize = 0;
        while k < self.members.len()
            invariant
                k <= self.members@.len(),
                forall|i: int| 0 <= i < k ==> !#[trigger] joins(self.members@[i], a as int, b as int),
            decreases self.members@.len() - k,
        {
            let m = self.members[k];
            if (m.start == a && m.end == b) || (m.start == b && m.end == a) {
                assert(joins(self.members@[k as int], a as int, b as int));
                return true;
            }
            k += 1;
        }
        false
    }

    /// Every pair of joints that no member joins, each in increasing order, listed lexicographically.
    pub fn open_pairs(&self) -> (pairs: Vec<(usize, usize)>)
        ensures
            forall|p: (usize, usize)|
                #[trigger] pairs@.contains(p) <==> open_pair(self.member_seq(), self.joint_seq().len() as int, p),
            forall|i: int, j: int|
                #![trigger pairs@[i], pairs@[j]]
                0 <= i < j < pairs@.len() ==> pair_before(pairs@[i], pairs@[j]),
    {
        let n = self.joints.len();
        let ghost ms = self.member_seq();
        let mut pairs: Vec<(usize, usize)> = Vec::new();
        let mut start: usize = 0;
        while start < n
            invariant
                n == self.joint_seq().len(),
                ms == self.member_seq(),
                start <= n,
                forall|p: (usize, usize)|
                    #[trigger] pairs@.contains(p) <==> (open_pair(ms, n as int, p) && p.0 < start),
                forall|i: int, j: int|
                    #![trigger pairs@[i], pairs@[j]]
                    0 <= i < j < pairs@.len() ==> pair_before(pairs@[i], pairs@[j]),
                forall|i: int| 0 <= i < pairs@.len() ==> (#[trigger] pairs@[i]).0 < start,
            decreases n - start,
        {
            let mut end: usize = start + 1;
            while end < n
                invariant
                    n == self.joint_seq().len(),
                    ms == self.member_seq(),
                    start < n,
                    start + 1 <= end <= n,
                    forall|p: (usize, usize)|
                        #[trigger] pairs@.contains(p) <==> (open_pair(ms, n as int, p) && pair_before(p, (start, end))),
                    forall|i: int, j: int|
                        #![trigger pairs@[i], pairs@[j]]
                        0 <= i < j < pairs@.len() ==> pair_before(pairs@[i], pairs@[j]),
                    forall|i: int| 0 <= i < pairs@.len() ==> pair_before(#[trigger] pairs@[i], (start, end)),
                decreases n - end,
            {
                if !self.is_connected(start, end) {
                    let ghost before = pairs@;
                    pairs.push((start, end));
                    proof {
                        assert forall|p: (usize, usize)| #[trigger] pairs@.contains(p) <==> (before.contains(p) || p == (start, end)) by {
                            if p == (start, end) {
                                assert(pairs@[before.len() as int] == p);
                            }
                            if pairs@.contains(p) && p != (start, end) {
                                let i = choose|i: int| 0 <= i < pairs@.len() && pairs@[i] == p;
                                assert(before[i] == p);
                            }
                            if before.contains(p) {
                                let i = choose|i: int| 0 <= i < before.len() && before[i] == p;
                                assert(pairs@[i] == p);
                            }
                        }
                    }
                }
                end += 1;
            }
            start += 1;
        }
        pairs
    }

    /// Join `start` and `end` by a new member of the default size.
    pub fn add_member_between(&mut self, start: usize, end: usize)
        requires
            old(self).wf(),
            open_pair(old(self).member_seq(), old(self).joint_seq().len() as int, (start, end)),
        ensures
            final(self).wf(),
            final(self).joint_seq() == old(self).joint_seq(),
            final(self).member_seq() == old(self).member_seq().push(new_member(start, end)),
    {
        self.members.push(Member { start, end, size: DEFAULT_SIZE });
        proof {
            let ms = self.members@;
            let n = self.joints@.len() as int;
            let prev = old(self).members@;
            assert forall|i: int| 0 <= i < ms.len() implies member_fits(#[trigger] ms[i], n) by {
                if i < prev.len() {
                    assert(ms[i] == prev[i]);
                }
            }
            assert forall|i: int, j: int| #![trigger ms[i], ms[j]] 0 <= i < j < ms.len()
                implies !joins(ms[i], ms[j].start as int, ms[j].end as int) by {
                assert(ms[i] == prev[i]);
                if j < prev.len() {
                    assert(ms[j] == prev[j]);
                } else if joins(ms[i], start as int, end as int) {
                    assert(connected(prev, start as int, end as int));
                }
            }
        }
    }

    /// Join a uniformly chosen pair of unconnected joints; with no such pair, nothing changes.
    pub fn add_member(&mut self)
        requires
            old(self).wf(),
        ensures
            final(self).wf(),
            final(self).joint_seq() == old(self).joint_seq(),
            (forall|p: (usize, usize)| !open_pair(old(self).member_seq(), old(self).joint_seq().len() as int, p))
                ==> final(self).member_seq() == old(self).member_seq(),
            (exists|p: (usize, usize)| open_pair(old(self).member_seq(), old(self).joint_seq().len() as int, p))
                ==> exists|p: (usize, usize)|
                    open_pair(old(self).member_seq(), old(self).joint_seq().len() as int, p)
                    && final(self).member_seq() == old(self).member_seq().push(new_member(p.0, p.1)),
    {
        let pairs = self.open_pairs();
        match crate::random::choose_pair(&pairs) {
            Some((start, end)) => {
                self.add_member_between(start, end);
            },
            None => {
                proof {
                    assert forall|p: (usize, usize)|
                        !open_pair(self.member_seq(), self.joint_seq().len() as int, p) by {
                        if open_pair(self.member_seq(), self.joint_seq().len() as int, p) {
                            assert(pairs@.contains(p));
                        }
                    }
                }
            },
        }
    }

    /// Remove member `index`.
    pub fn remove_member_at(&mut self, index: usize)
        requires
            old(self).wf(),
            index < old(self).member_seq().len(),
        ensures
            final(self).wf(),
            final(self).joint_seq() == old(self).joint_seq(),
            final(self).member_seq() == old(self).member_seq().remove(index as int),
    {
        self.members.remove(index);
        proof {
            let ms = self.members@;
            let prev = old(self).members@;
            assert forall|i: int| 0 <= i < ms.len() implies ms[i] == prev[if i < index { i } else { i + 1 }] by {}
            assert forall|i: int, j: int| #![trigger ms[i], ms[j]] 0 <= i < j < ms.len()
                implies !joins(ms[i], ms[j].start as int, ms[j].end as int) by {
                let a = if i < index { i } else { i + 1 };
                let b = if j < index { j } else { j + 1 };
                assert(ms[i] == prev[a] && ms[j] == prev[b]);
            }
        }
    }

    /// Remove a uniformly chosen member; with no members, nothing changes.
    pub fn remove_member(&mut self)
        requires
            old(self).wf(),
        ensures
            final(self).wf(),
            final(self).joint_seq() == old(self).joint_seq(),
            old(self).member_seq().len() == 0 ==> final(self).member_seq() == old(self).member_seq(),
            old(self).member_seq().len() > 0 ==> exists|i: int|
                0 <= i < old(self).member_seq().len()
                && final(self).member_seq() == old(self).member_seq().remove(i),
    {
        if self.members.len() > 0 {
            let index = crate::random::index_between(0, self.members.len());
            self.remove_member_at(index);
        }
    }

    /// Move member `index` one catalogue size up or down.
    pub fn resize_member(&mut self, index: usize, increase: bool)
        requires
            old(self).wf(),
            index < old(self).member_seq().len(),
        ensures
            final(self).wf(),
            final(self).joint_seq() == old(self).joint_seq(),
            final(self).member_seq() == old(self).member_seq().update(
                index as int,
                resized(old(self).member_seq()[index as int], increase),
            ),
    {
        let m = self.members[index];
        self.members[index] = Member { start: m.start, end: m.end, size: next_size(m.size, increase) };
        proof {
            let ms = self.members@;
            let prev = old(self).members@;
            assert forall|i: int, j: int| #![trigger ms[i], ms[j]] 0 <= i < j < ms.len()
                implies !joins(ms[i], ms[j].start as int, ms[j].end as int) by {
                assert(!joins(prev[i], prev[j].start as int, prev[j].end as int));
            }
        }
    }

    /// Move one uniformly chosen member a catalogue size up or down, the direction
    /// drawn at random; with no members, nothing changes.
    pub fn change_size_single(&mut self)
        requires
            old(self).wf(),
        ensures
            final(self).wf(),
            final(self).joint_seq() == old(self).joint_seq(),
            old(self).member_seq().len() == 0 ==> final(self).member_seq() == old(self).member_seq(),
            old(self).member_seq().len() > 0 ==> exists|i: int|
                0 <= i < old(self).member_seq().len() && {
                    ||| final(self).member_seq() == old(self).member_seq().update(
                        i,
                        resized(old(self).member_seq()[i], true),
                    )
                    ||| final(self).member_seq() == old(self).member_seq().update(
                        i,
                        resized(old(self).member_seq()[i], false),
                    )
                },
    {
        if self.members.len() > 0 {
            let index = crate::random::index_between(0, self.members.len());
            let increase = crate::random::coin_flip();
            self.resize_member(index, increase);
        }
    }

    /// Move every member one catalogue size in the same direction.
    pub fn resize_all(&mut self, increase: bool)
        requires
            old(self).wf(),
        ensures
            final(self).wf(),
            final(self).joint_seq() == old(self).joint_seq(),
            final(self).member_seq() == all_resized(old(self).member_seq(), increase),
    {
        let mut k: usize = 0;
        while k < self.members.len()
            invariant
                k <= self.members@.len(),
                self.joints@ == old(self).joints@,
                self.members@.len() == old(self).members@.len(),
                forall|i: int| 0 <= i < k ==> #[trigger] self.members@[i] == resized(old(self).members@[i], increase),
                forall|i: int| k <= i < self.members@.len() ==> #[trigger] self.members@[i] == old(self).members@[i],
            decreases self.members@.len() - k,
        {
            let m = self.members[k];
            self.members[k] = Member { start: m.start, end: m.end, size: next_size(m.size, increase) };
            k += 1;
        }
        proof {
            let ms = self.members@;
            let prev = old(self).members@;
            assert forall|i: int, j: int| #![trigger ms[i], ms[j]] 0 <= i < j < ms.len()
                implies !joins(ms[i], ms[j].start as int, ms[j].end as int) by {
                assert(!joins(prev[i], prev[j].start as int, prev[j].end as int));
            }
            assert(ms == all_resized(prev, increase));
        }
    }

    /// Move every member one catalogue size, the common direction drawn at random.
    pub fn change_size_all(&mut self)
        requires
            old(self).wf(),
        ensures
            final(self).wf(),
            final(self).joint_seq() == old(self).joint_seq(),
            final(self).member_seq() == all_resized(old(self).member_seq(), true)
                || final(self).member_seq() == all_resized(old(self).member_seq(), false),
    {
        let increase = crate::random::coin_flip();
        self.resize_all(increase);
    }

    /// Remove a uniformly chosen free joint with its members, renumbering the rest;
    /// with no free joint, nothing changes.
    pub fn remove_joint(&mut self)
        requires
            old(self).wf(),
        ensures
            final(self).wf(),
            keeps_fixed(old(self).joint_seq(), final(self).joint_seq()),
            old(self).joint_seq().len() == FIXED_JOINTS ==> *final(self) == *old(self),
            old(self).joint_seq().len() > FIXED_JOINTS ==> exists|i: int|
                FIXED_JOINTS <= i < old(self).joint_seq().len()
                && final(self).joint_seq() == old(self).joint_seq().remove(i)
                && final(self).member_seq() == without_joint(old(self).member_seq(), i),
    {
        if self.joints.len() > FIXED_JOINTS {
            let index = crate::random::index_between(FIXED_JOINTS, self.joints.len());
            self.remove_joint_at(index);
            assert(self.joint_seq().take(FIXED_JOINTS as int) == old(self).joint_seq().take(FIXED_JOINTS as int));
        }
    }

    /// A uniformly chosen free joint, if there is one.
    pub fn pick_free_joint(&self) -> (r: Option<usize>)
        requires
            self.wf(),
        ensures
            r is None <==> self.joint_seq().len() == FIXED_JOINTS,
            r matches Some(i) ==> FIXED_JOINTS <= i < self.joint_seq().len(),
    {
        if self.joints.len() > FIXED_JOINTS {
            Some(crate::random::index_between(FIXED_JOINTS, self.joints.len()))
        } else {
            None
        }
    }

    /// Put free joint `index` at `position`; the members follow it.
    pub fn place_joint(&mut self, index: usize, position: P)
        requires
            old(self).wf(),
            FIXED_JOINTS <= index < old(self).joint_seq().len(),
        ensures
            final(self).wf(),
            keeps_fixed(old(self).joint_seq(), final(self).joint_seq()),
            final(self).joint_seq() == old(self).joint_seq().update(index as int, position),
            final(self).member_seq() == old(self).member_seq(),
    {
        self.joints[index] = position;
        assert(self.joint_seq().take(FIXED_JOINTS as int) == old(self).joint_seq().take(FIXED_JOINTS as int));
    }

    /// Add a joint at `position` and join it to the first `ATTACHED_NEIGHBORS` joints of
    /// `order` (the caller lists the existing joints nearest first); a design that already
    /// has `MAX_JOINTS` joints is left unchanged.
    pub fn attach_joint(&mut self, position: P, order: &Vec<usize>)
        requires
            old(self).wf(),
            ATTACHED_NEIGHBORS <= order@.len(),
            forall|i: int| 0 <= i < ATTACHED_NEIGHBORS ==> #[trigger] order@[i] < old(self).joint_seq().len(),
            order@[0] != order@[1] && order@[0] != order@[2] && order@[1] != order@[2],
        ensures
            final(self).wf(),
            keeps_fixed(old(self).joint_seq(), final(self).joint_seq()),
            old(self).joint_seq().len() >= MAX_JOINTS ==> *final(self) == *old(self),
            old(self).joint_seq().len() < MAX_JOINTS ==> {
                &&& final(self).joint_seq() == old(self).joint_seq().push(position)
                &&& final(self).member_seq() == old(self).member_seq()
                    + attachments(order@, old(self).joint_seq().len() as usize)
            },
    {
        let end = self.joints.len();
        if end >= MAX_JOINTS {
            return;
        }
        let ghost prev = self.members@;
        let mut k: usize = 0;
        while k < ATTACHED_NEIGHBORS
            invariant
                k <= ATTACHED_NEIGHBORS,
                end == self.joints@.len(),
                end < MAX_JOINTS,
                self.joints@ == old(self).joints@,
                ATTACHED_NEIGHBORS <= order@.len(),
                forall|i: int| 0 <= i < ATTACHED_NEIGHBORS ==> #[trigger] order@[i] < end,
                self.members@ == prev + attachments(order@, end).take(k as int),
            decreases ATTACHED_NEIGHBORS - k,
        {
            self.members.push(Member { start: order[k], end, size: DEFAULT_SIZE });
            proof {
                assert(attachments(order@, end).take(k as int + 1)
                    == attachments(order@, end).take(k as int).push(new_member(order@[k as int], end)));
            }
            k += 1;
        }
        self.joints.push(position);
        proof {
            let ms = self.members@;
            let n = self.joints@.len() as int;
            let added = attachments(order@, end);
            assert(added.take(3) == added);
            assert forall|i: int| 0 <= i < ms.len() implies member_fits(#[trigger] ms[i], n) by {
                if i < prev.len() {
                    assert(ms[i] == prev[i]);
                } else {
                    assert(ms[i] == added[i - prev.len()]);
                }
            }
            assert forall|i: int, j: int| #![trigger ms[i], ms[j]] 0 <= i < j < ms.len()
                implies !joins(ms[i], ms[j].start as int, ms[j].end as int) by {
                if j < prev.len() {
                    assert(ms[i] == prev[i] && ms[j] == prev[j]);
                } else if i < prev.len() {
                    assert(ms[i] == prev[i]);
                    assert(ms[j] == added[j - prev.len()]);
                } else {
                    assert(ms[i] == added[i - prev.len()]);
                    assert(ms[j] == added[j - prev.len()]);
                }
            }
            assert(self.joint_seq().take(FIXED_JOINTS as int) == old(self).joint_seq().take(FIXED_JOINTS as int));
        }
    }
}

/// Every member left after removing a joint is a renumbered member that did not touch it.
proof fn lemma_without_joint_source(members: Seq<Member>, index: int)
    ensures
        forall|k: int| 0 <= k < without_joint(members, index).len() ==> exists|j: int|
            0 <= j < members.len() && #[trigger] survivor(members[j], index) == Some(
                #[trigger] without_joint(members, index)[k],
            ),
    decreases members.len(),
{
    if members.len() > 0 {
        let rest = members.drop_last();
        lemma_without_joint_source(rest, index);
        let r = without_joint(rest, index);
        let w = without_joint(members, index);
        assert forall|k: int| #![trigger w[k]] 0 <= k < w.len() implies exists|j: int|
            0 <= j < members.len() && #[trigger] survivor(members[j], index) == Some(w[k]) by {
            if k < r.len() {
                let j = choose|j: int| 0 <= j < rest.len() && #[trigger] survivor(rest[j], index) == Some(r[k]);
                assert(members[j] == rest[j]);
            } else {
                assert(survivor(members[members.len() - 1], index) == Some(w[k]));
            }
        }
    }
}

/// Removing joint `index` from a fitting member list leaves one that fits the remaining joints.
proof fn lemma_without_joint_fits(members: Seq<Member>, joint_count: int, index: int)
    requires
        members_fit(members, joint_count),
        0 <= index < joint_count,
    ensures
        members_fit(without_joint(members, index), joint_count - 1),
    decreases members.len(),
{
    if members.len() > 0 {
        let rest = members.drop_last();
        let last = members.last();
        assert(members_fit(rest, joint_count)) by {
            assert forall|i: int| 0 <= i < rest.len() implies member_fits(#[trigger] rest[i], joint_count) by {
                assert(rest[i] == members[i]);
            }
            assert forall|i: int, j: int| #![trigger rest[i], rest[j]] 0 <= i < j < rest.len()
                implies !joins(rest[i], rest[j].start as int, rest[j].end as int) by {
                assert(rest[i] == members[i] && rest[j] == members[j]);
            }
        }
        lemma_without_joint_fits(rest, joint_count, index);
        lemma_without_joint_source(rest, index);
        let r = without_joint(rest, index);
        assert(member_fits(members[members.len() - 1], joint_count));
        if !touches(last, index) {
            let moved = survivor(last, index)->0;
            let w = without_joint(members, index);
            assert(w == r.push(moved));
            assert forall|k: int| 0 <= k < r.len() implies !joins(r[k], moved.start as int, moved.end as int) by {
                let j = choose|j: int| 0 <= j < rest.len() && #[trigger] survivor(rest[j], index) == Some(r[k]);
                assert(members[j] == rest[j]);
                assert(!joins(members[j], members[members.len() - 1].start as int, members[members.len() - 1].end as int));
            }
            assert forall|i: int| 0 <= i < w.len() implies member_fits(#[trigger] w[i], joint_count - 1) by {
                if i < r.len() {
                    assert(w[i] == r[i]);
                }
            }
            assert forall|i: int, j: int| #![trigger w[i], w[j]] 0 <= i < j < w.len()
                implies !joins(w[i], w[j].start as int, w[j].end as int) by {
                assert(w[i] == r[i]);
                if j < r.len() {
                    assert(w[j] == r[j]);
                }
            }
        }
    }
}

/// The seed bridge fits its nine joints.
proof fn lemma_seed_fits()
    ensures
        members_fit(seed_members(), SEED_JOINTS as int),
{
    let s = seed_members();
    assert forall|i: int, j: int| 0 <= i < j < s.len() implies !joins(s[i], s[j].start as int, s[j].end as int) by {
    }
}

/// Move one size up or down without leaving the catalogue.
pub fn next_size(size: usize, increase: bool) -> (r: usize)
    ensures
        r == spec_next_size(size, increase),
{
    if increase {
        if size < SIZE_COUNT - 2 { size + 1 } else { SIZE_COUNT - 1 }
    } else {
        if size > 0 { size - 1 } else { 0 }
    }
}

/// A catalogue step never leaves the catalogue.
pub proof fn next_size_stays_in_catalogue(size: usize, increase: bool)
    requires
        size < SIZE_COUNT,
    ensures
        spec_next_size(size, increase) < SIZE_COUNT,
        increase && size + 1 < SIZE_COUNT ==> spec_next_size(size, increase) == size + 1,
        !increase && size > 0 ==> spec_next_size(size, increase) == size - 1,
{
}

/// One catalogue step up (capped at the largest size) or down (floored at zero).
pub open spec fn spec_next_size(size: usize, increase: bool) -> usize {
    if increase {
        if size + 1 < SIZE_COUNT - 1 { (size + 1) as usize } else { (SIZE_COUNT - 1) as usize }
    } else {
        if size > 0 { (size - 1) as usize } else { 0 }
    }
}

/// A catalogue step in direction `increase` moves a size up by one unless it is already the
/// largest size, and down by one unless it is already the smallest, keeping both ends.
pub proof fn resizing_moves_one_catalogue_step(m: Member, increase: bool)
    ensures
        resized(m, increase).start == m.start,
        resized(m, increase).end == m.end,
        increase ==> resized(m, increase).size == (if m.size + 1 <= SIZE_COUNT - 1 {
            m.size + 1
        } else {
            SIZE_COUNT - 1
        }),
        !increase ==> resized(m, increase).size == (if m.size >= 1 { m.size - 1 } else { 0 }),
{
}

/// Resizing all members moves every member, whatever its position, one catalogue step in the
/// one given direction, and keeps the number, order and ends of the members.
pub proof fn resizing_all_moves_every_member_the_same_way(members: Seq<Member>, increase: bool)
    ensures
        all_resized(members, increase).len() == members.len(),
        forall|i: int|
            #![trigger all_resized(members, increase)[i]]
            0 <= i < members.len() ==> {
                let m = members[i];
                let r = all_resized(members, increase)[i];
                &&& r.start == m.start
                &&& r.end == m.end
                &&& increase ==> r.size == (if m.size + 1 <= SIZE_COUNT - 1 {
                    m.size + 1
                } else {
                    SIZE_COUNT - 1
                })
                &&& !increase ==> r.size == (if m.size >= 1 { m.size - 1 } else { 0 })
            },
        forall|i: int, j: int|
            0 <= i < members.len() && 0 <= j < members.len() && members[i].size == members[j].size
                ==> #[trigger] all_resized(members, increase)[i].size
                == #[trigger] all_resized(members, increase)[j].size,
{
    assert forall|i: int|
        #![trigger all_resized(members, increase)[i]]
        0 <= i < members.len() implies all_resized(members, increase)[i] == resized(members[i], increase) by {
    }
}

/// A catalogue step both ways from the largest size below the top gives back that size,
/// and the step up never shrinks a member nor the step down ever grows one.
pub proof fn catalogue_steps_are_monotone(size: usize)
    requires
        size < SIZE_COUNT,
    ensures
        spec_next_size(size, true) >= size,
        spec_next_size(size, false) <= size,
        size + 1 < SIZE_COUNT ==> spec_next_size(spec_next_size(size, true), false) == size,
        size > 0 ==> spec_next_size(spec_next_size(size, false), true) == size,
{
}

/// The seed bridge is a triangulated (Warren) truss over bottom joints 0..=4 and top joints
/// 5..=8: the bottom chord, the top chord, and each top joint `5 + k` braced to bottom joints
/// `k` and `k + 1`; no other pair of joints is joined; all fifteen members have the default size.
/// The members are listed bottom chord left to right, top chord left to right, then for each top
/// joint from the left its diagonal down-left and its diagonal down-right.
pub proof fn seed_is_a_warren_truss()
    ensures
        seed_members().len() == 15,
        members_fit(seed_members(), SEED_JOINTS as int),
        forall|i: int| 0 <= i < 15 ==> (#[trigger] seed_members()[i]).size == DEFAULT_SIZE,
        forall|k: int| 0 <= k < 4 ==> #[trigger] seed_members()[k] == new_member(k as usize, (k + 1) as usize),
        forall|k: int| 0 <= k < 3 ==> #[trigger] seed_members()[4 + k] == new_member((5 + k) as usize, (6 + k) as usize),
        forall|k: int| 0 <= k < 4 ==> #[trigger] seed_members()[7 + 2 * k] == new_member(k as usize, (5 + k) as usize),
        forall|k: int| 0 <= k < 4 ==> #[trigger] seed_members()[8 + 2 * k] == new_member((5 + k) as usize, (k + 1) as usize),
        forall|k: int| 0 <= k < 4 ==> #[trigger] connected(seed_members(), k, k + 1),
        forall|k: int| 5 <= k < 8 ==> #[trigger] connected(seed_members(), k, k + 1),
        forall|k: int| 0 <= k < 4 ==> #[trigger] connected(seed_members(), 5 + k, k),
        forall|k: int| 0 <= k < 4 ==> #[trigger] connected(seed_members(), 5 + k, k + 1),
        forall|a: int, b: int| #[trigger] connected(seed_members(), a, b) ==> {
            let lo = if a < b { a } else { b };
            let hi = if a < b { b } else { a };
            ||| hi == lo + 1 && 0 <= lo < 4
            ||| hi == lo + 1 && 5 <= lo < 8
            ||| 5 <= hi <= 8 && (lo == hi - 5 || lo == hi - 4)
        },
{
    let s = seed_members();
    lemma_seed_fits();
    assert forall|k: int| 0 <= k < 4 implies #[trigger] connected(s, k, k + 1) by {
        assert(joins(s[k], k, k + 1));
    }
    assert forall|k: int| 5 <= k < 8 implies #[trigger] connected(s, k, k + 1) by {
        assert(joins(s[k - 1], k, k + 1));
    }
    assert forall|k: int| 0 <= k < 4 implies #[trigger] connected(s, 5 + k, k) by {
        assert(joins(s[7 + 2 * k], 5 + k, k));
    }
    assert forall|k: int| 0 <= k < 4 implies #[trigger] connected(s, 5 + k, k + 1) by {
        assert(joins(s[8 + 2 * k], 5 + k, k + 1));
    }
    assert forall|a: int, b: int| #[trigger] connected(s, a, b) implies {
        let lo = if a < b { a } else { b };
        let hi = if a < b { b } else { a };
        ||| hi == lo + 1 && 0 <= lo < 4
        ||| hi == lo + 1 && 5 <= lo < 8
        ||| 5 <= hi <= 8 && (lo == hi - 5 || lo == hi - 4)
    } by {
        let i = choose|i: int| 0 <= i < s.len() && #[trigger] joins(s[i], a, b);
        assert(0 <= i < 15);
    }
}

/// Removing joint `index` keeps exactly the members that do not touch it, each with every
/// joint index above `index` lowered by one.
pub proof fn removing_a_joint_keeps_the_untouched_members(members: Seq<Member>, index: int)
    ensures
        forall|k: int|
            0 <= k < without_joint(members, index).len() ==> #[trigger] lowered_untouched(
                members,
                index,
                without_joint(members, index)[k],
            ),
        forall|j: int|
            0 <= j < members.len() && members[j].start != index && members[j].end != index
                ==> without_joint(members, index).contains(#[trigger] lowered(members[j], index)),
        without_joint(members, index).len() <= members.len(),
    decreases members.len(),
{
    let w = without_joint(members, index);
    if members.len() > 0 {
        let rest = members.drop_last();
        removing_a_joint_keeps_the_untouched_members(rest, index);
        let r = without_joint(rest, index);
        let last = members.last();
        if touches(last, index) {
            assert(w == r);
        } else {
            assert(w == r.push(lowered(last, index)));
        }
        assert forall|j: int|
            0 <= j < members.len() && members[j].start != index && members[j].end != index
                implies w.contains(#[trigger] lowered(members[j], index)) by {
            if j < rest.len() {
                assert(members[j] == rest[j]);
                assert(r.contains(lowered(rest[j], index)));
                let k = choose|k: int| 0 <= k < r.len() && r[k] == lowered(rest[j], index);
                assert(w[k] == r[k]);
            } else {
                assert(w[w.len() - 1] == lowered(last, index));
            }
        }
    }
    lemma_kept_members_are_lowered(members, index);
}

/// Every member left after removing joint `index` is an untouched member, lowered.
proof fn lemma_kept_members_are_lowered(members: Seq<Member>, index: int)
    ensures
        forall|k: int|
            0 <= k < without_joint(members, index).len() ==> #[trigger] lowered_untouched(
                members,
                index,
                without_joint(members, index)[k],
            ),
{
    lemma_without_joint_source(members, index);
    assert forall|k: int|
        0 <= k < without_joint(members, index).len() implies #[trigger] lowered_untouched(
            members,
            index,
            without_joint(members, index)[k],
        ) by {
        let j = choose|j: int| 0 <= j < members.len() && #[trigger] survivor(members[j], index)
            == Some(without_joint(members, index)[k]);
        assert(kept_as(members, index, j, without_joint(members, index)[k]));
    }
}

/// `m` is member `j` of `members`, which does not touch joint `index`, lowered past it.
pub open spec fn kept_as(members: Seq<Member>, index: int, j: int, m: Member) -> bool {
    &&& 0 <= j < members.len()
    &&& members[j].start != index
    &&& members[j].end != index
    &&& m == lowered(members[j], index)
}

/// `m` is some member of `members` that does not touch joint `index`, lowered past it.
pub open spec fn lowered_untouched(members: Seq<Member>, index: int, m: Member) -> bool {
    exists|j: int| #[trigger] kept_as(members, index, j, m)
}

/// `m` with every joint index above `index` lowered by one.
pub open spec fn lowered(m: Member, index: int) -> Member {
    Member {
        start: if m.start > index { (m.start - 1) as usize } else { m.start },
        end: if m.end > index { (m.end - 1) as usize } else { m.end },
        size: m.size,
    }
}

/// A new joint numbered `joint_count` is joined by three default-size members, in turn, to the
/// first three joints of `order`.
pub proof fn attachments_join_the_new_joint_to_its_neighbors(order: Seq<usize>, joint_count: usize)
    ensures
        attachments(order, joint_count).len() == ATTACHED_NEIGHBORS,
        forall|i: int| 0 <= i < ATTACHED_NEIGHBORS ==> {
            &&& (#[trigger] attachments(order, joint_count)[i]).start == order[i]
            &&& attachments(order, joint_count)[i].end == joint_count
            &&& attachments(order, joint_count)[i].size == DEFAULT_SIZE
        },
{
}

/// Keeping the fixed joints means each of the first `FIXED_JOINTS` joints is unchanged.
pub proof fn kept_fixed_joints_are_unchanged<P>(before: Seq<P>, after: Seq<P>)
    requires
        FIXED_JOINTS <= before.len(),
        FIXED_JOINTS <= after.len(),
        keeps_fixed(before, after),
    ensures
        forall|i: int| 0 <= i < FIXED_JOINTS ==> #[trigger] after[i] == before[i],
{
    assert forall|i: int| 0 <= i < FIXED_JOINTS implies #[trigger] after[i] == before[i] by {
        assert(after.take(FIXED_JOINTS as int)[i] == before.take(FIXED_JOINTS as int)[i]);
    }
}

} // verus!
