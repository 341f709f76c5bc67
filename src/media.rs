use vstd::multiset::Multiset;
use vstd::prelude::*;

verus! {

/// Holds of every object but `object`.
pub open spec fn other_than(object: u128) -> spec_fn(u128) -> bool {
    |s: u128| s != object
}

/// The containment stack after one more intersection with `object`: an object
/// already on the stack is being left and comes off it, any other is being
/// entered and goes on top.
pub open spec fn step(stack: Seq<u128>, object: u128) -> Seq<u128> {
    if stack.contains(object) {
        stack.filter(other_than(object))
    } else {
        stack.push(object)
    }
}

/// The containment stack once the first `k` intersections of the ray, in order
/// along it, have been walked: the objects the ray is then inside, the one
/// entered last on top.
pub open spec fn stack_after(objects: Seq<u128>, k: nat) -> Seq<u128>
    decreases k,
{
    if k == 0 || k > objects.len() {
        Seq::empty()
    } else {
        step(stack_after(objects, (k - 1) as nat), objects[k - 1])
    }
}

/// The object on top of a stack, or `None` (vacuum) when it is empty.
pub open spec fn top(stack: Seq<u128>) -> Option<u128> {
    if stack.len() == 0 {
        None
    } else {
        Some(stack.last())
    }
}

/// An object is inside the containment stack after the first `k` intersections
/// exactly when the ray has crossed its surface an odd number of times so far.
pub proof fn lemma_inside_iff_odd_crossings(objects: Seq<u128>, k: nat, object: u128)
    requires
        k <= objects.len(),
    ensures
        stack_after(objects, k).contains(object) <==> objects.take(k as int).to_multiset().count(
            object,
        ) % 2 == 1,
    decreases k,
{
    broadcast use vstd::seq_lib::group_to_multiset_ensures;

    if k == 0 {
        assert(objects.take(0) =~= Seq::<u128>::empty());
        assert(objects.take(0).to_multiset() =~= Multiset::empty());
    } else {
        let prev = stack_after(objects, (k - 1) as nat);
        let x = objects[k - 1];
        lemma_inside_iff_odd_crossings(objects, (k - 1) as nat, object);
        assert(objects.take(k as int) =~= objects.take(k - 1).push(x));
        if prev.contains(x) {
            let p = other_than(x);
            if prev.filter(p).contains(object) {
                prev.lemma_filter_contains_rev(p, object);
                let i = choose|i: int| 0 <= i < prev.filter(p).len() && prev.filter(p)[i] == object;
                prev.lemma_filter_pred(p, i);
            }
            if object != x && prev.contains(object) {
                let i = choose|i: int| 0 <= i < prev.len() && prev[i] == object;
                prev.lemma_filter_contains(p, i);
            }
        } else {
            assert(prev.push(x).last() == x);
            if prev.push(x).contains(object) && object != x {
                let i = choose|i: int| 0 <= i < prev.push(x).len() && prev.push(x)[i] == object;
                assert(prev[i] == object);
            }
            if prev.contains(object) {
                let i = choose|i: int| 0 <= i < prev.len() && prev[i] == object;
                assert(prev.push(x)[i] == object);
            }
        }
    }
}

/// The media on both sides of the surface crossed at one intersection.
pub struct Media {
    /// The object whose material the ray leaves, `None` for vacuum.
    pub from: Option<u128>,
    /// The object whose material the ray enters, `None` for vacuum.
    pub to: Option<u128>,
}

fn stack_contains(stack: &Vec<u128>, object: u128) -> (r: bool)
    ensures
        r == stack@.contains(object),
{
    let mut i: usize = 0;
    while i < stack.len()
        invariant
            i <= stack@.len(),
            forall|j: int| 0 <= j < i ==> stack@[j] != object,
        decreases stack@.len() - i,
    {
        if stack[i] == object {
            return true;
        }
        i = i + 1;
    }
    false
}

fn without(stack: &Vec<u128>, object: u128) -> (r: Vec<u128>)
    ensures
        r@ == stack@.filter(other_than(object)),
{
    let mut r: Vec<u128> = Vec::new();
    let mut i: usize = 0;
    while i < stack.len()
        invariant
            i <= stack@.len(),
            r@ == stack@.take(i as int).filter(other_than(object)),
        decreases stack@.len() - i,
    {
        proof {
            assert(stack@.take(i + 1) =~= stack@.take(i as int).push(stack@[i as int]));
            stack@.take(i as int).lemma_filter_push(stack@[i as int], other_than(object));
        }
        if stack[i] != object {
            r.push(stack[i]);
        }
        i = i + 1;
    }
    proof {
        assert(stack@.take(stack@.len() as int) =~= stack@);
    }
    r
}

/// Walks the intersections of one ray, given by the object each belongs to
/// and sorted along the ray, up to and including the one at `hit`, keeping
/// the stack of objects the ray is inside. The medium left at the hit is the
/// top of the stack before it, the medium entered the top after it.
pub fn refraction_media(objects: &Vec<u128>, hit: usize) -> (r: Media)
    requires
        hit < objects@.len(),
    ensures
        r.from == top(stack_after(objects@, hit as nat)),
        r.to == top(stack_after(objects@, (hit + 1) as nat)),
{
    let mut containers: Vec<u128> = Vec::new();
    let mut i: usize = 0;
    while i < hit
        invariant
            i <= hit < objects@.len(),
            containers@ == stack_after(objects@, i as nat),
        decreases hit - i,
    {
        containers = walk(containers, objects[i]);
        i = i + 1;
    }
    let from = last_of(&containers);
    containers = walk(containers, objects[hit]);
    let to = last_of(&containers);
    Media { from, to }
}

fn walk(stack: Vec<u128>, object: u128) -> (r: Vec<u128>)
    ensures
        r@ == step(stack@, object),
{
    if stack_contains(&stack, object) {
        without(&stack, object)
    } else {
        let mut stack = stack;
        stack.push(object);
        stack
    }
}

fn last_of(stack: &Vec<u128>) -> (r: Option<u128>)
    ensures
        r == top(stack@),
{
    if stack.len() == 0 {
        None
    } else {
        Some(stack[stack.len() - 1])
    }
}

} // verus!
