//! The order in which classes are told that they were loaded.
use vstd::prelude::*;

verus! {

/// What the order depends on of a class.
#[derive(Clone, Copy, Debug)]
pub struct ClassNode {
    /// The class that this one inherits from, by its index.
    pub superclass: Option<usize>,
    /// Whether the class itself, and not just one that it inherits from, has a
    /// `+load` method.
    pub has_own_load: bool,
    /// Whether the class stands in for one that isn't there.
    pub skipped: bool,
}

/// Whether the superclasses of a class are all there, and no more than `steps`
/// of them in a row.
pub open spec fn chain_ends(classes: Seq<ClassNode>, class: Option<usize>, steps: nat) -> bool
    decreases steps,
{
    match class {
        None => true,
        Some(c) => {
            &&& c < classes.len()
            &&& steps > 0
            &&& chain_ends(classes, classes[c as int].superclass, (steps - 1) as nat)
        },
    }
}

/// Whether no class inherits from itself, or from one that isn't there.
pub open spec fn is_hierarchy(classes: Seq<ClassNode>) -> bool {
    forall|c: usize| c < classes.len() ==> #[trigger] chain_ends(classes, Some(c), classes.len())
}

/// A class and those that it inherits from, up to the first that is skipped.
pub open spec fn chain(classes: Seq<ClassNode>, class: Option<usize>, steps: nat) -> Seq<usize>
    decreases steps,
{
    match class {
        Some(c) if steps > 0 && !classes[c as int].skipped => seq![c] + chain(
            classes,
            classes[c as int].superclass,
            (steps - 1) as nat,
        ),
        _ => Seq::empty(),
    }
}

/// Whether a class inherits from another one, with no skipped class between
/// them.
pub open spec fn inherits(classes: Seq<ClassNode>, class: usize, ancestor: usize) -> bool {
    class != ancestor && chain(classes, Some(class), classes.len()).contains(ancestor)
}

/// Whether a class has to be told.
pub open spec fn gets_load(classes: Seq<ClassNode>, class: usize) -> bool {
    class < classes.len() && classes[class as int].has_own_load && !classes[class as int].skipped
}

/// Whether each class comes after those of the others that it inherits from.
pub open spec fn supers_first(classes: Seq<ClassNode>, order: Seq<usize>) -> bool {
    forall|i: int, ancestor: usize|
        0 <= i < order.len() && #[trigger] inherits(classes, order[i], ancestor) && gets_load(
            classes,
            ancestor,
        ) ==> order.take(i).contains(ancestor)
}

/// Whether all classes that have to be told are in the order, each once and
/// after those that it inherits from, and no others.
pub open spec fn is_class_order(classes: Seq<ClassNode>, order: Seq<usize>) -> bool {
    &&& order.no_duplicates()
    &&& forall|c: usize| #[trigger] order.contains(c) <==> gets_load(classes, c)
    &&& supers_first(classes, order)
}

/// The order after a class and those that it inherits from.
pub open spec fn with_chain(
    classes: Seq<ClassNode>,
    order: Seq<usize>,
    class: Option<usize>,
    steps: nat,
) -> Seq<usize>
    decreases steps,
{
    match class {
        Some(c) if steps > 0 && !classes[c as int].skipped => {
            let above = with_chain(
                classes,
                order,
                classes[c as int].superclass,
                (steps - 1) as nat,
            );
            if classes[c as int].has_own_load && !order.contains(c) {
                above.push(c)
            } else {
                above
            }
        },
        _ => order,
    }
}

/// The order after the first `count` classes.
pub open spec fn order_after(classes: Seq<ClassNode>, count: nat) -> Seq<usize>
    decreases count,
{
    if count == 0 {
        Seq::empty()
    } else {
        let before = order_after(classes, (count - 1) as nat);
        let class = (count - 1) as usize;
        if gets_load(classes, class) && !before.contains(class) {
            with_chain(classes, before, Some(class), classes.len())
        } else {
            before
        }
    }
}

/// How many superclasses there are, the class included.
spec fn depth(classes: Seq<ClassNode>, class: Option<usize>, steps: nat) -> nat
    decreases steps,
{
    match class {
        Some(c) if steps > 0 => 1 + depth(
            classes,
            classes[c as int].superclass,
            (steps - 1) as nat,
        ),
        _ => 0,
    }
}

/// Where a chain ends, more steps make no difference.
proof fn lemma_steps(classes: Seq<ClassNode>, class: Option<usize>, few: nat, many: nat)
    requires
        chain_ends(classes, class, few),
        few <= many,
    ensures
        chain_ends(classes, class, many),
        chain(classes, class, few) == chain(classes, class, many),
        depth(classes, class, few) == depth(classes, class, many),
        depth(classes, class, few) <= few,
    decreases few,
{
    if let Some(c) = class {
        lemma_steps(
            classes,
            classes[c as int].superclass,
            (few - 1) as nat,
            (many - 1) as nat,
        );
    }
}

/// No class in a chain is deeper than where it starts.
proof fn lemma_depth(classes: Seq<ClassNode>, class: Option<usize>, steps: nat, member: usize)
    requires
        chain_ends(classes, class, steps),
        chain(classes, class, steps).contains(member),
    ensures
        member < classes.len(),
        !classes[member as int].skipped,
        chain_ends(classes, Some(member), steps),
        depth(classes, Some(member), steps) <= depth(classes, class, steps),
    decreases steps,
{
    let c = class.unwrap();
    let above = classes[c as int].superclass;
    let rest = chain(classes, above, (steps - 1) as nat);
    let all = chain(classes, class, steps);
    let i = all.index_of(member);
    assert(all[i] == member);
    if i > 0 {
        assert(rest[i - 1] == member);
        lemma_depth(classes, above, (steps - 1) as nat, member);
        lemma_steps(classes, Some(member), (steps - 1) as nat, steps);
    }
}

/// No class inherits from itself.
proof fn lemma_not_above_itself(classes: Seq<ClassNode>, class: usize, steps: nat)
    requires
        chain_ends(classes, Some(class), steps),
    ensures
        !chain(classes, classes[class as int].superclass, (steps - 1) as nat).contains(class),
{
    let above = classes[class as int].superclass;
    if chain(classes, above, (steps - 1) as nat).contains(class) {
        lemma_depth(classes, above, (steps - 1) as nat, class);
        lemma_steps(classes, Some(class), (steps - 1) as nat, steps);
    }
}

/// What holds of the order before a chain holds after it.
proof fn lemma_with_chain(
    classes: Seq<ClassNode>,
    order: Seq<usize>,
    class: Option<usize>,
    steps: nat,
)
    requires
        steps <= classes.len(),
        chain_ends(classes, class, steps),
        order.no_duplicates(),
        supers_first(classes, order),
        forall|c: usize| #[trigger] order.contains(c) ==> gets_load(classes, c),
    ensures
        ({
            let after = with_chain(classes, order, class, steps);
            &&& after.no_duplicates()
            &&& supers_first(classes, after)
            &&& forall|c: usize| #[trigger]
                after.contains(c) <==> order.contains(c) || (chain(
                    classes,
                    class,
                    steps,
                ).contains(c) && gets_load(classes, c))
        }),
    decreases steps,
{
    let after = with_chain(classes, order, class, steps);
    let all = chain(classes, class, steps);
    if class is Some && !classes[class.unwrap() as int].skipped {
        let c = class.unwrap();
        let superclass = classes[c as int].superclass;
        let fewer = (steps - 1) as nat;
        let above = with_chain(classes, order, superclass, fewer);
        let rest = chain(classes, superclass, fewer);
        lemma_with_chain(classes, order, superclass, fewer);
        lemma_not_above_itself(classes, c, steps);
        assert forall|x: usize| #[trigger] all.contains(x) <==> x == c || rest.contains(x) by {
            assert(all[0] == c);
            if rest.contains(x) {
                assert(all[rest.index_of(x) + 1] == x);
            }
            if all.contains(x) && x != c {
                assert(rest[all.index_of(x) - 1] == x);
            }
        }
        if classes[c as int].has_own_load && !order.contains(c) {
            assert(!above.contains(c));
            assert forall|x: usize| #[trigger] after.contains(x) <==> above.contains(x) || x
                == c by {
                if above.contains(x) {
                    assert(after[above.index_of(x)] == x);
                }
                assert(after[above.len() as int] == c);
            }
            assert forall|i: int, ancestor: usize|
                0 <= i < after.len() && #[trigger] inherits(classes, after[i], ancestor)
                    && gets_load(classes, ancestor) implies after.take(i).contains(ancestor) by {
                if i < above.len() {
                    assert(after.take(i) =~= above.take(i));
                    assert(inherits(classes, above[i], ancestor));
                } else {
                    assert(after.take(i) =~= above);
                    lemma_steps(classes, class, steps, classes.len());
                    assert(all.contains(ancestor));
                }
            }
        } else {
            assert forall|x: usize| #[trigger] after.contains(x) <==> order.contains(x) || (
            all.contains(x) && gets_load(classes, x)) by {
                assert(above.contains(x) <==> order.contains(x) || (rest.contains(x) && gets_load(
                    classes,
                    x,
                )));
            }
        }
    }
}

/// What holds of the order at each step.
proof fn lemma_order_after(classes: Seq<ClassNode>, count: nat)
    requires
        is_hierarchy(classes),
        count <= classes.len() <= usize::MAX,
    ensures
        ({
            let order = order_after(classes, count);
            &&& order.no_duplicates()
            &&& supers_first(classes, order)
            &&& forall|c: usize| #[trigger] order.contains(c) ==> gets_load(classes, c)
            &&& forall|c: usize|
                c < count && #[trigger] gets_load(classes, c) ==> order.contains(c)
        }),
    decreases count,
{
    if count > 0 {
        lemma_order_after(classes, (count - 1) as nat);
        let before = order_after(classes, (count - 1) as nat);
        let class = (count - 1) as usize;
        if gets_load(classes, class) && !before.contains(class) {
            assert(chain_ends(classes, Some(class), classes.len()));
            lemma_with_chain(classes, before, Some(class), classes.len());
            assert(chain(classes, Some(class), classes.len())[0] == class);
            let order = order_after(classes, count);
            assert forall|c: usize| c < count && #[trigger] gets_load(
                classes,
                c,
            ) implies order.contains(c) by {
                assert(c != class ==> before.contains(c));
            }
        }
    }
}

/// Whether no class inherits from itself, or from one that isn't there.
pub fn is_class_hierarchy(classes: &[ClassNode]) -> (yes: bool)
    ensures
        yes == is_hierarchy(classes@),
{
    let mut c: usize = 0;
    while c < classes.len()
        invariant
            c <= classes@.len(),
            forall|k: usize|
                k < c ==> #[trigger] chain_ends(classes@, Some(k), classes@.len()),
        decreases classes@.len() - c,
    {
        let mut class: Option<usize> = Some(c);
        let mut steps: usize = classes.len();
        while class.is_some()
            invariant
                c < classes@.len(),
                chain_ends(classes@, Some(c), classes@.len()) == chain_ends(
                    classes@,
                    class,
                    steps as nat,
                ),
            decreases steps,
        {
            let k: usize = class.unwrap();
            if steps == 0 || k >= classes.len() {
                return false;
            }
            class = classes[k].superclass;
            steps = steps - 1;
        }
        c = c + 1;
    }
    true
}

/// The classes whose `+load` method has to be called, in order.
///
/// Superclasses come first. A class that is skipped gets no call, and hides
/// what is above it from those that inherit from it.
pub fn class_load_order(classes: &[ClassNode]) -> (order: Vec<usize>)
    requires
        is_hierarchy(classes@),
    ensures
        is_class_order(classes@, order@),
        order@ == order_after(classes@, classes@.len()),
{
    let mut order: Vec<usize> = Vec::new();
    let mut processed: Vec<bool> = Vec::new();
    let mut n: usize = 0;
    while n < classes.len()
        invariant
            n <= classes@.len(),
            processed@.len() == n,
            forall|k: int| 0 <= k < n ==> !#[trigger] processed@[k],
        decreases classes@.len() - n,
    {
        processed.push(false);
        n = n + 1;
    }
    let mut c: usize = 0;
    assert(order@ =~= order_after(classes@, 0));
    while c < classes.len()
        invariant
            is_hierarchy(classes@),
            c <= classes@.len(),
            processed@.len() == classes@.len(),
            is_marked(processed@, order@),
            order@ == order_after(classes@, c as nat),
        decreases classes@.len() - c,
    {
        if !processed[c] && classes[c].has_own_load && !classes[c].skipped {
            add_chain(classes, c, &mut order, &mut processed);
        }
        c = c + 1;
    }
    proof {
        lemma_order_after(classes@, classes@.len());
    }
    order
}

/// Whether the classes in the order are marked.
spec fn is_marked(processed: Seq<bool>, order: Seq<usize>) -> bool {
    forall|k: usize| k < processed.len() ==> #[trigger] processed[k as int] == order.contains(k)
}

/// Adds a class and those that it inherits from, as far as they are not there
/// yet.
fn add_chain(
    classes: &[ClassNode],
    class: usize,
    order: &mut Vec<usize>,
    processed: &mut Vec<bool>,
)
    requires
        class < classes@.len(),
        chain_ends(classes@, Some(class), classes@.len()),
        old(processed)@.len() == classes@.len(),
        is_marked(old(processed)@, old(order)@),
    ensures
        final(order)@ == with_chain(classes@, old(order)@, Some(class), classes@.len()),
        final(processed)@.len() == classes@.len(),
        is_marked(final(processed)@, final(order)@),
{
    let ghost before = order@;
    let mut inherited: Vec<usize> = Vec::new();
    let mut current: Option<usize> = Some(class);
    let ghost mut steps: nat = classes@.len();
    assert(before + inherited@.reverse() =~= before);
    assert(with_chain(classes@, before, current, steps) + inherited@.reverse() =~= with_chain(
        classes@,
        before,
        current,
        steps,
    ));
    while current.is_some()
        invariant
            before == order@,
            processed@.len() == classes@.len(),
            is_marked(processed@, order@),
            forall|i: int| 0 <= i < inherited@.len() ==> #[trigger] inherited@[i] < classes@.len(),
            chain_ends(classes@, current, steps),
            with_chain(classes@, before, Some(class), classes@.len()) == with_chain(
                classes@,
                before,
                current,
                steps,
            ) + inherited@.reverse(),
        ensures
            with_chain(classes@, before, Some(class), classes@.len()) == before
                + inherited@.reverse(),
        decreases steps,
    {
        let k: usize = current.unwrap();
        if classes[k].skipped {
            break ;
        }
        let ghost rest = inherited@.reverse();
        if classes[k].has_own_load && !processed[k] {
            inherited.push(k);
            assert(inherited@.reverse() =~= seq![k] + rest);
        }
        proof {
            let above = with_chain(
                classes@,
                before,
                classes@[k as int].superclass,
                (steps - 1) as nat,
            );
            assert(above.push(k) + rest =~= above + (seq![k] + rest));
            steps = (steps - 1) as nat;
        }
        current = classes[k].superclass;
    }
    let ghost all = inherited@.reverse();
    let mut left: usize = inherited.len();
    assert(order@ =~= before + all.take(0));
    while left > 0
        invariant
            left <= inherited@.len(),
            all == inherited@.reverse(),
            order@ == before + all.take(inherited@.len() - left),
            processed@.len() == classes@.len(),
            forall|i: int| 0 <= i < inherited@.len() ==> #[trigger] inherited@[i] < classes@.len(),
            is_marked(processed@, order@),
        decreases left,
    {
        left = left - 1;
        let next: usize = inherited[left];
        let ghost shorter = order@;
        order.push(next);
        processed.set(next, true);
        proof {
            let done = inherited@.len() - left;
            assert(all[done - 1] == next);
            assert(all.take(done) =~= all.take(done - 1).push(next));
            assert(order@ =~= before + all.take(done));
            assert forall|k: usize| k < processed@.len() implies #[trigger] processed@[k as int]
                == order@.contains(k) by {
                assert(order@[shorter.len() as int] == next);
                if shorter.contains(k) {
                    assert(order@[shorter.index_of(k)] == k);
                }
                if order@.contains(k) && k != next {
                    assert(shorter[order@.index_of(k)] == k);
                }
            }
        }
    }
    assert(all.take(inherited@.len() as int) =~= all);
}

} // verus!
