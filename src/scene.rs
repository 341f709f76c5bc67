use vstd::prelude::*;

verus! {

/// Relies on uuid::Uuid::new_v4, which draws a random version-4 identifier,
/// and on Uuid::as_u128, which gives its 128 bits with the version number in
/// bits 76 to 79.
#[verifier::external_body]
fn fresh_id() -> (r: u128)
    ensures
        r & 0xF0000000000000000000u128 == 0x40000000000000000000u128,
{
    uuid::Uuid::new_v4().as_u128()
}

/// The shapes of a scene in a flat arena, each addressed by its stable index
/// and carrying a randomly drawn identifier.
/// A shape placed in a group records the group's index as its parent; the
/// link is for lookup only and owns nothing. A group always precedes its
/// members, so following parents always ends at a top-level shape.
pub struct Scene<T> {
    pub shapes: Vec<T>,
    pub parents: Vec<Option<usize>>,
    pub ids: Vec<u128>,
}

/// The indices below `n` whose parent is `group`, in increasing order.
pub open spec fn members_below(parents: Seq<Option<usize>>, group: usize, n: nat) -> Seq<usize>
    decreases n,
{
    if n == 0 || n > parents.len() {
        Seq::empty()
    } else if parents[n - 1] == Some(group) {
        members_below(parents, group, (n - 1) as nat).push((n - 1) as usize)
    } else {
        members_below(parents, group, (n - 1) as nat)
    }
}

/// The shape at `i`, then its group, that group's group and so on up to a
/// top-level shape.
pub open spec fn lineage(parents: Seq<Option<usize>>, i: nat) -> Seq<usize>
    decreases i,
{
    if i >= parents.len() {
        Seq::empty()
    } else {
        match parents[i as int] {
            Some(p) => if p < i {
                seq![i as usize] + lineage(parents, p as nat)
            } else {
                seq![i as usize]
            },
            None => seq![i as usize],
        }
    }
}

/// Following parents from any shape of a well-formed scene climbs to ever
/// smaller indices and ends at a top-level shape: the lineage starts at the
/// shape itself, each entry after it is the group of the one before, and the
/// last entry belongs to no group.
pub proof fn lemma_lineage_ends_at_top<T>(scene: Scene<T>, i: usize)
    requires
        scene.wf(),
        i < scene.shapes@.len(),
    ensures
        ({
            let lin = lineage(scene.parents@, i as nat);
            &&& lin.len() >= 1
            &&& lin[0] == i
            &&& forall|k: int|
                0 < k < lin.len() ==> scene.parents@[lin[k - 1] as int] == Some(#[trigger] lin[k])
                    && lin[k] < lin[k - 1]
            &&& scene.parents@[lin.last() as int] is None
        }),
    decreases i,
{
    let ps = scene.parents@;
    let lin = lineage(ps, i as nat);
    if ps[i as int] is Some {
        let p = ps[i as int].unwrap();
        assert(p < i);
        lemma_lineage_ends_at_top(scene, p);
        let rest = lineage(ps, p as nat);
        assert(lin == seq![i] + rest);
        assert forall|k: int| 0 < k < lin.len() implies ps[lin[k - 1] as int] == Some(
            #[trigger] lin[k],
        ) && lin[k] < lin[k - 1] by {
            assert(lin[k] == rest[k - 1]);
            if k > 1 {
                assert(lin[k - 1] == rest[k - 2]);
                assert(rest[(k - 1) - 1] == rest[k - 2]);
            } else {
                assert(rest[0] == p);
            }
        }
        assert(lin.last() == rest.last());
    } else {
        assert(lin == seq![i]);
    }
}

impl<T> Scene<T> {
    /// One parent slot per shape, and each parent comes before its members.
    pub open spec fn wf(&self) -> bool {
        &&& self.shapes@.len() == self.parents@.len()
        &&& self.ids@.len() == self.parents@.len()
        &&& forall|i: int|
            0 <= i < self.parents@.len() && (#[trigger] self.parents@[i]) is Some
                ==> self.parents@[i].unwrap() < i
    }

    /// A scene with no shapes.
    pub fn new() -> (r: Self)
        ensures
            r.wf(),
            r.shapes@.len() == 0,
    {
        Scene { shapes: Vec::new(), parents: Vec::new(), ids: Vec::new() }
    }

    /// Adds a top-level shape and returns its index.
    pub fn add(&mut self, shape: T) -> (r: usize)
        requires
            old(self).wf(),
            old(self).shapes@.len() < usize::MAX,
        ensures
            final(self).wf(),
            r == old(self).shapes@.len(),
            final(self).shapes@ == old(self).shapes@.push(shape),
            final(self).parents@ == old(self).parents@.push(None),
            final(self).ids@.drop_last() == old(self).ids@,
    {
        let r = self.shapes.len();
        self.shapes.push(shape);
        self.parents.push(None);
        let id = fresh_id();
        self.ids.push(id);
        proof {
            assert(self.ids@.drop_last() =~= old(self).ids@);
        }
        r
    }

    /// Adds a shape as a member of the group at `group` and returns its index.
    pub fn add_child(&mut self, group: usize, shape: T) -> (r: usize)
        requires
            old(self).wf(),
            group < old(self).shapes@.len() < usize::MAX,
        ensures
            final(self).wf(),
            r == old(self).shapes@.len(),
            final(self).shapes@ == old(self).shapes@.push(shape),
            final(self).parents@ == old(self).parents@.push(Some(group)),
            final(self).ids@.drop_last() == old(self).ids@,
    {
        let r = self.shapes.len();
        self.shapes.push(shape);
        self.parents.push(Some(group));
        let id = fresh_id();
        self.ids.push(id);
        proof {
            assert(self.ids@.drop_last() =~= old(self).ids@);
        }
        r
    }

    /// The group that the shape at `i` belongs to, if any.
    pub fn parent(&self, i: usize) -> (r: Option<usize>)
        requires
            self.wf(),
            i < self.shapes@.len(),
        ensures
            r == self.parents@[i as int],
            r matches Some(p) ==> p < i,
    {
        self.parents[i]
    }

    /// The identifier of the shape at `i`.
    pub fn id(&self, i: usize) -> (r: u128)
        requires
            self.wf(),
            i < self.shapes@.len(),
        ensures
            r == self.ids@[i as int],
    {
        self.ids[i]
    }

    /// The members of the group at `group`, in the order they were added.
    pub fn members(&self, group: usize) -> (r: Vec<usize>)
        requires
            self.wf(),
        ensures
            r@ == members_below(self.parents@, group, self.parents@.len()),
    {
        let mut r: Vec<usize> = Vec::new();
        let mut i: usize = 0;
        while i < self.parents.len()
            invariant
                i <= self.parents@.len(),
                r@ == members_below(self.parents@, group, i as nat),
            decreases self.parents@.len() - i,
        {
            if self.parents[i] == Some(group) {
                r.push(i);
            }
            i = i + 1;
        }
        r
    }

    /// The shape at `i` followed by the groups that hold it, innermost first.
    pub fn lineage(&self, i: usize) -> (r: Vec<usize>)
        requires
            self.wf(),
            i < self.shapes@.len(),
        ensures
            r@ == lineage(self.parents@, i as nat),
    {
        let mut r: Vec<usize> = Vec::new();
        let mut k: usize = i;
        r.push(k);
        while self.parents[k].is_some()
            invariant
                self.wf(),
                k < self.parents@.len(),
                r@ + lineage(self.parents@, k as nat).drop_first() == lineage(
                    self.parents@,
                    i as nat,
                ),
                r@.len() > 0,
            decreases k,
        {
            let p = self.parents[k].unwrap();
            proof {
                assert(self.parents@[k as int] is Some);
            }
            r.push(p);
            proof {
                assert(lineage(self.parents@, k as nat).drop_first() =~= lineage(
                    self.parents@,
                    p as nat,
                ));
                assert(r@ + lineage(self.parents@, p as nat).drop_first() =~= r@.drop_last()
                    + lineage(self.parents@, p as nat));
            }
            k = p;
        }
        proof {
            assert(lineage(self.parents@, k as nat).drop_first() =~= Seq::<usize>::empty());
            assert(r@ =~= r@ + lineage(self.parents@, k as nat).drop_first());
        }
        r
    }
}

} // verus!
