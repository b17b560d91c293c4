//! The order in which the loaded binaries are initialized.
use vstd::prelude::*;

use crate::numeric::counting::lemma_indices_fit;
use crate::text::{after_prefix, same_text, without_prefix};

verus! {

/// A binary and the libraries that it depends on.
pub struct BinaryDependencyNode {
    pub name: String,
    pub dependencies: Vec<String>,
}

/// The last of the first `count` binaries that has a name. It stands for all
/// binaries of that name.
pub open spec fn last_named(
    graph: Seq<BinaryDependencyNode>,
    name: Seq<char>,
    count: int,
) -> Option<int>
    decreases count,
{
    if count <= 0 {
        None
    } else if graph[count - 1].name@ == name {
        Some(count - 1)
    } else {
        last_named(graph, name, count - 1)
    }
}

/// The binary that has a name.
pub open spec fn named(graph: Seq<BinaryDependencyNode>, name: Seq<char>) -> Option<int> {
    last_named(graph, name, graph.len() as int)
}

/// Names of binaries don't have the directory that paths of libraries have.
pub open spec fn short_name(path: Seq<char>) -> Seq<char> {
    match after_prefix(path, "/usr/lib/"@) {
        Some(rest) => rest,
        None => path,
    }
}

/// Whether a binary has to be initialized at all: it stands for its name.
pub open spec fn is_node(graph: Seq<BinaryDependencyNode>, i: int) -> bool {
    0 <= i < graph.len() && named(graph, graph[i].name@) == Some(i)
}

/// Whether a binary, or another one of its name, depends on a library.
/// Dependencies that are not among the binaries don't count.
pub open spec fn depends_on(graph: Seq<BinaryDependencyNode>, node: int, library: int) -> bool {
    exists|k: int, p: int|
        #![trigger graph[k].dependencies@[p]]
        0 <= k < graph.len() && 0 <= p < graph[k].dependencies@.len() && named(
            graph,
            graph[k].name@,
        ) == Some(node) && named(graph, short_name(graph[k].dependencies@[p]@)) == Some(library)
}

/// Whether all binaries are in the order, each once, and none comes before a
/// library that it depends on.
pub open spec fn is_load_order(graph: Seq<BinaryDependencyNode>, order: Seq<usize>) -> bool {
    &&& order.no_duplicates()
    &&& forall|i: int| 0 <= i < order.len() ==> is_node(graph, #[trigger] order[i] as int)
    &&& forall|n: usize| #[trigger] is_node(graph, n as int) ==> order.contains(n)
    &&& forall|i: int, library: usize|
        0 <= i < order.len() && #[trigger] depends_on(graph, order[i] as int, library as int)
            ==> order.take(i).contains(library)
}

/// Whether each of some binaries depends on one of them, so that none can be
/// the first.
pub open spec fn is_stuck(graph: Seq<BinaryDependencyNode>, nodes: Set<usize>) -> bool {
    forall|n: usize| #[trigger]
        nodes.contains(n) ==> is_node(graph, n as int) && leans_on(graph, nodes, n)
}

/// Whether a binary depends on one of some others.
#[verifier::opaque]
pub open spec fn leans_on(
    graph: Seq<BinaryDependencyNode>,
    nodes: Set<usize>,
    node: usize,
) -> bool {
    exists|library: usize| #[trigger]
        nodes.contains(library) && depends_on(graph, node as int, library as int)
}

pub proof fn lemma_leans_on(
    graph: Seq<BinaryDependencyNode>,
    nodes: Set<usize>,
    node: usize,
) -> (library: usize)
    requires
        leans_on(graph, nodes, node),
    ensures
        nodes.contains(library),
        depends_on(graph, node as int, library as int),
{
    reveal(leans_on);
    choose|library: usize| #[trigger]
        nodes.contains(library) && depends_on(graph, node as int, library as int)
}

proof fn lemma_last_named(graph: Seq<BinaryDependencyNode>, name: Seq<char>, count: int)
    requires
        0 <= count <= graph.len(),
    ensures
        last_named(graph, name, count) matches Some(i) ==> 0 <= i < count && graph[i].name@ == name,
    decreases count,
{
    if count > 0 {
        lemma_last_named(graph, name, count - 1);
    }
}

/// The binary that has a name is the one that stands for that name.
proof fn lemma_named_is_node(graph: Seq<BinaryDependencyNode>, name: Seq<char>)
    ensures
        named(graph, name) matches Some(i) ==> is_node(graph, i),
{
    lemma_last_named(graph, name, graph.len() as int);
}

/// Binaries that are stuck can't be put in order.
pub proof fn stuck_binaries_have_no_order(
    graph: Seq<BinaryDependencyNode>,
    nodes: Set<usize>,
    first: usize,
    order: Seq<usize>,
)
    requires
        is_stuck(graph, nodes),
        nodes.contains(first),
    ensures
        !is_load_order(graph, order),
{
    if is_load_order(graph, order) {
        assert(is_node(graph, first as int));
        assert(order.contains(first));
        let i = choose|i: int| 0 <= i < order.len() && order[i] == first;
        lemma_descend(graph, nodes, order, i);
    }
}

proof fn lemma_descend(
    graph: Seq<BinaryDependencyNode>,
    nodes: Set<usize>,
    order: Seq<usize>,
    i: int,
)
    requires
        is_stuck(graph, nodes),
        is_load_order(graph, order),
        0 <= i < order.len(),
    ensures
        !nodes.contains(order[i]),
    decreases i,
{
    if nodes.contains(order[i]) {
        let library = lemma_leans_on(graph, nodes, order[i]);
        let before = order.take(i);
        assert(before.contains(library));
        let j = choose|j: int| 0 <= j < before.len() && before[j] == library;
        assert(order[j] == library);
        lemma_descend(graph, nodes, order, j);
    }
}

fn find_named(graph: &[BinaryDependencyNode], name: &str) -> (found: Option<usize>)
    ensures
        match found {
            Some(i) => named(graph@, name@) == Some(i as int) && i < graph@.len(),
            None => named(graph@, name@) is None,
        },
{
    let mut count: usize = graph.len();
    while count > 0
        invariant
            count <= graph@.len(),
            named(graph@, name@) == last_named(graph@, name@, count as int),
        decreases count,
    {
        if same_text(graph[count - 1].name.as_str(), name) {
            return Some(count - 1);
        }
        count = count - 1;
    }
    None
}

/// The library that a path means, if it is among the binaries.
fn find_library(graph: &[BinaryDependencyNode], path: &str) -> (found: Option<usize>)
    ensures
        match found {
            Some(i) => named(graph@, short_name(path@)) == Some(i as int) && i < graph@.len(),
            None => named(graph@, short_name(path@)) is None,
        },
{
    match without_prefix(path, "/usr/lib/") {
        Some(rest) => find_named(graph, rest),
        None => find_named(graph, path),
    }
}

/// Whether the dependencies of all binaries up to some point are listed.
spec fn lists_dependencies(
    graph: Seq<BinaryDependencyNode>,
    lists: Seq<Vec<usize>>,
    nodes: int,
    paths: int,
) -> bool {
    &&& lists.len() == graph.len()
    &&& forall|b: int, library: usize|
        0 <= b < lists.len() && #[trigger] lists[b]@.contains(library) ==> depends_on(
            graph,
            b,
            library as int,
        )
    &&& forall|k: int, p: int, b: int, library: usize|
        #![trigger graph[k].dependencies@[p], lists[b]@.contains(library)]
        0 <= k < graph.len() && 0 <= p < graph[k].dependencies@.len() && (k < nodes || (k == nodes
            && p < paths)) && named(graph, graph[k].name@) == Some(b) && named(
            graph,
            short_name(graph[k].dependencies@[p]@),
        ) == Some(library as int) ==> lists[b]@.contains(library)
}

/// The libraries that each binary depends on.
fn list_dependencies(graph: &[BinaryDependencyNode]) -> (lists: Vec<Vec<usize>>)
    ensures
        lists@.len() == graph@.len(),
        forall|b: int, library: usize|
            0 <= b < lists@.len() ==> (#[trigger] lists@[b]@.contains(library) <==> depends_on(
                graph@,
                b,
                library as int,
            )),
{
    let mut lists: Vec<Vec<usize>> = Vec::new();
    let count: usize = graph.len();
    while lists.len() < count
        invariant
            lists@.len() <= count,
            count == graph@.len(),
            forall|b: int| 0 <= b < lists@.len() ==> (#[trigger] lists@[b])@.len() == 0,
        decreases count - lists@.len(),
    {
        lists.push(Vec::new());
    }
    let mut k: usize = 0;
    while k < count
        invariant
            k <= count,
            count == graph@.len(),
            lists_dependencies(graph@, lists@, k as int, 0),
        decreases count - k,
    {
        let paths: &Vec<String> = &graph[k].dependencies;
        let node = find_named(graph, graph[k].name.as_str());
        let mut p: usize = 0;
        while p < paths.len()
            invariant
                k < count,
                count == graph@.len(),
                p <= paths@.len(),
                paths@ == graph@[k as int].dependencies@,
                match node {
                    Some(b) => named(graph@, graph@[k as int].name@) == Some(b as int) && b < count,
                    None => named(graph@, graph@[k as int].name@) is None,
                },
                lists_dependencies(graph@, lists@, k as int, p as int),
            decreases paths@.len() - p,
        {
            let library = find_library(graph, paths[p].as_str());
            let ghost before = lists@;
            if let (Some(node), Some(library)) = (node, library) {
                lists[node].push(library);
                proof {
                    assert(graph@[k as int].dependencies@[p as int] == paths@[p as int]);
                    assert(depends_on(graph@, node as int, library as int));
                    assert forall|b: int, l: usize|
                        0 <= b < lists@.len() && #[trigger] lists@[b]@.contains(l) implies depends_on(
                    graph@, b, l as int) by {
                        if b != node || l != library {
                            if b == node {
                                let i = choose|i: int|
                                    0 <= i < lists@[b]@.len() && lists@[b]@[i] == l;
                                assert(before[b]@[i] == l);
                            }
                            assert(before[b]@.contains(l));
                        }
                    }
                    assert forall|b: int, l: usize|
                        0 <= b < before.len() && before[b]@.contains(
                            l,
                        ) implies #[trigger] lists@[b]@.contains(l) by {
                        let i = choose|i: int| 0 <= i < before[b]@.len() && before[b]@[i] == l;
                        assert(lists@[b]@[i] == l);
                    }
                    assert(lists@[node as int]@[before[node as int]@.len() as int] == library);
                    assert(lists@[node as int]@.contains(library));
                }
            }
            proof {
                assert forall|k2: int, p2: int, b: int, l: usize|
                    #![trigger graph@[k2].dependencies@[p2], lists@[b]@.contains(l)]
                    0 <= k2 < graph@.len() && 0 <= p2 < graph@[k2].dependencies@.len() && (k2 < k
                        || (k2 == k && p2 < p + 1)) && named(graph@, graph@[k2].name@) == Some(b)
                        && named(graph@, short_name(graph@[k2].dependencies@[p2]@)) == Some(
                        l as int,
                    ) implies lists@[b]@.contains(l) by {
                    lemma_last_named(graph@, graph@[k2].name@, graph@.len() as int);
                    if k2 == k && p2 == p {
                        assert(graph@[k2].dependencies@[p2] == paths@[p as int]);
                    } else {
                        assert(before[b]@.contains(l));
                    }
                }
            }
            p = p + 1;
        }
        k = k + 1;
    }
    proof {
        assert forall|b: int, library: usize| 0 <= b < lists@.len() implies (
        #[trigger] lists@[b]@.contains(library) <==> depends_on(graph@, b, library as int)) by {
            if depends_on(graph@, b, library as int) {
                let (i, p) = choose|i: int, p: int|
                    #![trigger graph@[i].dependencies@[p]]
                    0 <= i < graph@.len() && 0 <= p < graph@[i].dependencies@.len() && named(
                        graph@,
                        graph@[i].name@,
                    ) == Some(b) && named(graph@, short_name(graph@[i].dependencies@[p]@)) == Some(
                        library as int,
                    );
                assert(lists@[b]@.contains(library));
            }
        }
    }
    lists
}

fn contains_before(order: &Vec<usize>, end: usize, node: usize) -> (yes: bool)
    requires
        end <= order@.len(),
    ensures
        yes == order@.take(end as int).contains(node),
{
    let mut i: usize = 0;
    while i < end
        invariant
            i <= end <= order@.len(),
            forall|k: int| 0 <= k < i ==> order@[k] != node,
        decreases end - i,
    {
        if order[i] == node {
            assert(order@.take(end as int)[i as int] == node);
            return true;
        }
        i = i + 1;
    }
    false
}

/// Whether all of some libraries are among the first `end` of the order.
fn all_before(order: &Vec<usize>, end: usize, libraries: &Vec<usize>) -> (yes: bool)
    requires
        end <= order@.len(),
    ensures
        yes == forall|library: usize|
            libraries@.contains(library) ==> #[trigger] order@.take(end as int).contains(library),
{
    let mut i: usize = 0;
    while i < libraries.len()
        invariant
            i <= libraries@.len(),
            end <= order@.len(),
            forall|k: int|
                0 <= k < i ==> order@.take(end as int).contains(#[trigger] libraries@[k]),
        decreases libraries@.len() - i,
    {
        if !contains_before(order, end, libraries[i]) {
            assert(libraries@.contains(libraries@[i as int]));
            return false;
        }
        i = i + 1;
    }
    true
}

/// What holds of the order while it grows: what is in it has its libraries
/// before it.
spec fn is_growing(graph: Seq<BinaryDependencyNode>, order: Seq<usize>) -> bool {
    &&& order.no_duplicates()
    &&& forall|i: int| 0 <= i < order.len() ==> is_node(graph, #[trigger] order[i] as int)
    &&& forall|i: int, library: usize|
        0 <= i < order.len() && #[trigger] depends_on(graph, order[i] as int, library as int)
            ==> order.take(i).contains(library)
}

/// Whether a binary waits for a library that is not among the first ones.
spec fn waits(graph: Seq<BinaryDependencyNode>, order: Seq<usize>, head: int, node: usize) -> bool {
    exists|library: usize| #[trigger]
        depends_on(graph, node as int, library as int) && !order.take(head).contains(library)
}

/// Adds the binaries whose libraries are all among the first `head`.
fn add_ready(
    graph: &[BinaryDependencyNode],
    lists: &Vec<Vec<usize>>,
    order: &mut Vec<usize>,
    head: usize,
)
    requires
        lists@.len() == graph@.len(),
        forall|b: int, library: usize|
            0 <= b < lists@.len() ==> (#[trigger] lists@[b]@.contains(library) <==> depends_on(
                graph@,
                b,
                library as int,
            )),
        head <= old(order)@.len(),
        is_growing(graph@, old(order)@),
    ensures
        old(order)@.len() <= final(order)@.len(),
        final(order)@.take(old(order)@.len() as int) == old(order)@,
        is_growing(graph@, final(order)@),
        forall|n: usize| #[trigger]
            is_node(graph@, n as int) ==> final(order)@.contains(n) || waits(
                graph@,
                final(order)@,
                head as int,
                n,
            ),
{
    let ghost start = order@;
    let count: usize = graph.len();
    let mut n: usize = 0;
    assert(order@.take(start.len() as int) =~= start);
    while n < count
        invariant
            n <= count,
            count == graph@.len(),
            lists@.len() == graph@.len(),
            forall|b: int, library: usize|
                0 <= b < lists@.len() ==> (#[trigger] lists@[b]@.contains(library) <==> depends_on(
                    graph@,
                    b,
                    library as int,
                )),
            head <= start.len() <= order@.len(),
            order@.take(start.len() as int) == start,
            is_growing(graph@, order@),
            forall|m: usize|
                m < n && #[trigger] is_node(graph@, m as int) ==> order@.contains(m) || waits(
                    graph@,
                    order@,
                    head as int,
                    m,
                ),
        decreases count - n,
    {
        let is_own = match find_named(graph, graph[n].name.as_str()) {
            Some(i) => i == n,
            None => false,
        };
        let ghost before = order@;
        if is_own {
            let known = contains_before(order, order.len(), n);
            assert(order@.take(order@.len() as int) =~= order@);
            if !known {
                let ready = all_before(order, head, &lists[n]);
                if ready {
                    order.push(n);
                    proof {
                        let after = order@;
                        assert(after[before.len() as int] == n);
                        assert(after.take(start.len() as int) =~= before.take(start.len() as int));
                        assert(after.take(head as int) =~= before.take(head as int));
                        assert forall|i: int, library: usize|
                            0 <= i < after.len() && #[trigger] depends_on(
                                graph@,
                                after[i] as int,
                                library as int,
                            ) implies after.take(i).contains(library) by {
                            if i < before.len() {
                                assert(after[i] == before[i]);
                                assert(after.take(i) =~= before.take(i));
                            } else {
                                assert(lists@[n as int]@.contains(library));
                                assert(before.take(head as int).contains(library));
                                let j = choose|j: int|
                                    0 <= j < head && before.take(head as int)[j] == library;
                                assert(after.take(i)[j] == library);
                            }
                        }
                        assert forall|m: usize| before.contains(m) implies after.contains(m) by {
                            let j = choose|j: int| 0 <= j < before.len() && before[j] == m;
                            assert(after[j] == m);
                        }
                        assert forall|m: usize|
                            m < n + 1 && #[trigger] is_node(
                                graph@,
                                m as int,
                            ) implies after.contains(m) || waits(
                            graph@,
                            after,
                            head as int,
                            m,
                        ) by {
                            if m == n {
                                assert(after.contains(n));
                            } else if waits(graph@, before, head as int, m) {
                                let library = choose|library: usize| #[trigger]
                                    depends_on(graph@, m as int, library as int)
                                        && !before.take(head as int).contains(library);
                                assert(depends_on(graph@, m as int, library as int));
                                assert(!after.take(head as int).contains(library));
                            }
                        }
                    }
                } else {
                    proof {
                        let library = choose|library: usize|
                            lists@[n as int]@.contains(library) && !#[trigger] order@.take(
                                head as int,
                            ).contains(library);
                        assert(depends_on(graph@, n as int, library as int));
                        assert(waits(graph@, order@, head as int, n));
                    }
                }
            }
        }
        n = n + 1;
    }
    proof {
        assert forall|m: usize| #[trigger] is_node(graph@, m as int) implies order@.contains(m)
            || waits(graph@, order@, head as int, m) by {
            assert(m < count);
        }
    }
}

/// A binary that waits for a library when all of the order has been looked at
/// depends on one that is not in the order.
proof fn lemma_waits_leans(
    graph: Seq<BinaryDependencyNode>,
    order: Seq<usize>,
    nodes: Set<usize>,
    node: usize,
)
    requires
        waits(graph, order, order.len() as int, node),
        forall|m: usize| #[trigger]
            nodes.contains(m) <==> is_node(graph, m as int) && !order.contains(m),
    ensures
        leans_on(graph, nodes, node),
{
    reveal(leans_on);
    let library = choose|library: usize| #[trigger]
        depends_on(graph, node as int, library as int) && !order.take(
            order.len() as int,
        ).contains(library);
    assert(order.take(order.len() as int) =~= order);
    lemma_dependency_is_node(graph, node as int, library as int);
    assert(nodes.contains(library));
}

/// An order has no more binaries than there are.
proof fn lemma_order_fits(graph: Seq<BinaryDependencyNode>, order: Seq<usize>)
    requires
        order.no_duplicates(),
        forall|i: int| 0 <= i < order.len() ==> is_node(graph, #[trigger] order[i] as int),
    ensures
        order.len() <= graph.len(),
{
    let indices = order.map_values(|n: usize| n as int);
    assert forall|i: int| 0 <= i < indices.len() implies 0 <= #[trigger] indices[i] < graph.len() by {
        assert(is_node(graph, order[i] as int));
    }
    lemma_indices_fit(indices, graph.len() as int);
}

/// Topologically sorts the binaries using Kahn's algorithm, so that libraries
/// come before what depends on them. If there is a cycle, a binary that it
/// keeps from being put in order is returned instead.
pub fn generate_binary_load_order(
    graph: &[BinaryDependencyNode],
) -> (order: Result<Vec<usize>, usize>)
    ensures
        match order {
            Ok(order) => is_load_order(graph@, order@),
            Err(node) => exists|nodes: Set<usize>|
                nodes.contains(node) && #[trigger] is_stuck(graph@, nodes),
        },
{
    let lists = list_dependencies(graph);
    let mut order: Vec<usize> = Vec::new();
    let mut head: usize = 0;
    add_ready(graph, &lists, &mut order, 0);
    proof {
        lemma_order_fits(graph@, order@);
    }
    while head < order.len()
        invariant
            head <= order@.len(),
            lists@.len() == graph@.len(),
            forall|b: int, library: usize|
                0 <= b < lists@.len() ==> (#[trigger] lists@[b]@.contains(library) <==> depends_on(
                    graph@,
                    b,
                    library as int,
                )),
            is_growing(graph@, order@),
            forall|n: usize| #[trigger]
                is_node(graph@, n as int) ==> order@.contains(n) || waits(
                    graph@,
                    order@,
                    head as int,
                    n,
                ),
            order@.len() <= graph@.len(),
        decreases graph@.len() - head,
    {
        head = head + 1;
        add_ready(graph, &lists, &mut order, head);
        proof {
            lemma_order_fits(graph@, order@);
        }
    }
    let count: usize = graph.len();
    let mut n: usize = 0;
    while n < count
        invariant
            n <= count,
            count == graph@.len(),
            head == order@.len(),
            is_growing(graph@, order@),
            forall|m: usize| #[trigger]
                is_node(graph@, m as int) ==> order@.contains(m) || waits(
                    graph@,
                    order@,
                    head as int,
                    m,
                ),
            forall|m: usize|
                m < n && #[trigger] is_node(graph@, m as int) ==> order@.contains(m),
        decreases count - n,
    {
        let is_own = match find_named(graph, graph[n].name.as_str()) {
            Some(i) => i == n,
            None => false,
        };
        assert(order@.take(order@.len() as int) =~= order@);
        if is_own && !contains_before(&order, order.len(), n) {
            proof {
                let nodes = Set::new(|m: usize| is_node(graph@, m as int) && !order@.contains(m));
                assert(nodes.contains(n));
                assert forall|m: usize| #[trigger] nodes.contains(m) implies is_node(
                    graph@,
                    m as int,
                ) && leans_on(graph@, nodes, m) by {
                    assert(waits(graph@, order@, head as int, m));
                    lemma_waits_leans(graph@, order@, nodes, m);
                }
                assert(is_stuck(graph@, nodes));
            }
            return Err(n);
        }
        n = n + 1;
    }
    proof {
        assert forall|m: usize| #[trigger] is_node(graph@, m as int) implies order@.contains(m) by {
            assert(m < count);
        }
    }
    Ok(order)
}

proof fn lemma_dependency_is_node(graph: Seq<BinaryDependencyNode>, node: int, library: int)
    requires
        depends_on(graph, node, library),
    ensures
        is_node(graph, library),
{
    let (k, p) = choose|k: int, p: int|
        #![trigger graph[k].dependencies@[p]]
        0 <= k < graph.len() && 0 <= p < graph[k].dependencies@.len() && named(
            graph,
            graph[k].name@,
        ) == Some(node) && named(graph, short_name(graph[k].dependencies@[p]@)) == Some(library);
    lemma_named_is_node(graph, short_name(graph[k].dependencies@[p]@));
}

} // verus!
