//! What is decided when an app is started.
use vstd::prelude::*;

use crate::environment::class_order::{
    chain, chain_ends, class_load_order, gets_load, inherits, is_class_hierarchy, is_hierarchy,
    ClassNode,
};
use crate::environment::load_order::{
    depends_on, generate_binary_load_order, is_node, is_stuck, last_named, lemma_leans_on,
    named, short_name, BinaryDependencyNode,
};
use crate::environment::{
    choose_device_family, dylib_slide, startup_orientation, zero_memory_on_free,
    DeviceOrientation, FamilyChoice,
};
use crate::text::after_prefix;

verus! {

/// Whether a row of classes leads from one to another: each one inherits from
/// the one before, and none of them is skipped.
pub open spec fn is_line(
    classes: Seq<ClassNode>,
    line: Seq<usize>,
    class: usize,
    ancestor: usize,
) -> bool {
    &&& line.len() > 0
    &&& line[0] == class
    &&& line.last() == ancestor
    &&& forall|i: int|
        0 <= i < line.len() ==> {
            &&& (#[trigger] line[i]) < classes.len()
            &&& !classes[line[i] as int].skipped
        }
    &&& forall|i: int|
        0 <= i < line.len() - 1 ==> classes[#[trigger] line[i] as int].superclass == Some(
            line[i + 1],
        )
}

proof fn lemma_line(classes: Seq<ClassNode>, line: Seq<usize>, steps: nat)
    requires
        line.len() > 0,
        is_line(classes, line, line[0], line.last()),
        chain_ends(classes, Some(line[0]), steps),
    ensures
        chain(classes, Some(line[0]), steps).contains(line.last()),
    decreases line.len(),
{
    let class = line[0];
    let all = chain(classes, Some(class), steps);
    if line.len() == 1 {
        assert(all[0] == class);
    } else {
        let rest = line.drop_first();
        assert(rest[0] == line[1]);
        assert forall|i: int| 0 <= i < rest.len() implies {
            &&& (#[trigger] rest[i]) < classes.len()
            &&& !classes[rest[i] as int].skipped
        } by {
            assert(rest[i] == line[i + 1]);
        }
        assert forall|i: int| 0 <= i < rest.len() - 1 implies classes[
        #[trigger] rest[i] as int].superclass == Some(rest[i + 1]) by {
            assert(rest[i] == line[i + 1]);
            assert(rest[i + 1] == line[i + 2]);
        }
        assert(classes[line[0] as int].superclass == Some(line[1]));
        lemma_line(classes, rest, (steps - 1) as nat);
        let above = chain(classes, Some(line[1]), (steps - 1) as nat);
        let k = above.index_of(line.last());
        assert(all[k + 1] == line.last());
    }
}

/// The classes that are told that they were loaded are those that have a method
/// for it and are not skipped, each once, and a class after all those of them
/// that it inherits from without a skipped class in between.
pub proof fn classes_are_loaded_after_their_superclasses(
    classes: &[ClassNode],
    order: Vec<usize>,
    i: int,
    line: Seq<usize>,
)
    requires
        is_hierarchy(classes@),
        call_ensures(class_load_order, (classes,), order),
        0 <= i < order@.len(),
        line.len() > 1,
        is_line(classes@, line, order@[i], line.last()),
        classes@[line.last() as int].has_own_load,
        line.last() != order@[i],
    ensures
        exists|j: int| 0 <= j < i && order@[j] == line.last(),
{
    let class = order@[i];
    assert(line[line.len() - 1] == line.last());
    assert(order@.contains(class));
    assert(chain_ends(classes@, Some(class), classes@.len()));
    lemma_line(classes@, line, classes@.len());
    assert(inherits(classes@, order@[i], line.last()));
    assert(gets_load(classes@, line.last()));
    assert(order@.take(i).contains(line.last()));
    let j = choose|j: int| 0 <= j < order@.take(i).len() && order@.take(i)[j] == line.last();
    assert(order@[j] == line.last());
}

/// Every class that has a method for it and is not skipped is told, once, and no
/// other class is.
pub proof fn just_the_classes_with_load_are_loaded(
    classes: &[ClassNode],
    order: Vec<usize>,
    class: usize,
)
    requires
        is_hierarchy(classes@),
        call_ensures(class_load_order, (classes,), order),
    ensures
        order@.contains(class) <==> class < classes@.len() && classes@[class as int].has_own_load
            && !classes@[class as int].skipped,
        forall|i: int, j: int| 0 <= i < j < order@.len() ==> order@[i] != order@[j],
{
}

/// Whether a list of classes is a hierarchy: from no class do superclasses lead
/// back to it or to one that isn't there.
pub proof fn hierarchies_have_no_loops(classes: &[ClassNode], yes: bool, class: usize)
    requires
        call_ensures(is_class_hierarchy, (classes,), yes),
        yes,
        class < classes@.len(),
    ensures
        classes@[class as int].superclass != Some(class),
        classes@[class as int].superclass matches Some(s) ==> s < classes@.len(),
        forall|line: Seq<usize>|
            line.len() > 1 && line[0] == class && (forall|i: int|
                0 <= i < line.len() - 1 ==> (#[trigger] line[i]) < classes@.len()
                    && classes@[line[i] as int].superclass == Some(line[i + 1]))
                ==> #[trigger] line.last() != class,
{
    assert(chain_ends(classes@, Some(class), classes@.len()));
    reveal_with_fuel(chain_ends, 3);
    assert forall|line: Seq<usize>|
        line.len() > 1 && line[0] == class && (forall|i: int|
            0 <= i < line.len() - 1 ==> (#[trigger] line[i]) < classes@.len()
                && classes@[line[i] as int].superclass == Some(line[i + 1])) implies
    #[trigger] line.last() != class by {
        if line.last() == class {
            lemma_no_loop(classes@, line, 0, classes@.len());
        }
    }
    if classes@[class as int].superclass == Some(class) {
        let line = seq![class, class];
        assert forall|i: int| 0 <= i < line.len() - 1 implies (#[trigger] line[i])
            < classes@.len() && classes@[line[i] as int].superclass == Some(line[i + 1]) by {}
        assert(line.last() != class);
    }
}

/// What leads on and on without an end would be a loop.
proof fn lemma_no_loop(classes: Seq<ClassNode>, line: Seq<usize>, at: int, steps: nat)
    requires
        line.len() > 1,
        0 <= at < line.len(),
        forall|i: int|
            0 <= i < line.len() - 1 ==> (#[trigger] line[i]) < classes.len()
                && classes[line[i] as int].superclass == Some(line[i + 1]),
        chain_ends(classes, Some(line[at]), steps),
    ensures
        line.last() != line[0],
    decreases steps,
{
    if at == line.len() - 1 && line[at] == line[0] {
        assert(line[0] < classes.len());
        assert(classes[line[0] as int].superclass == Some(line[1]));
        lemma_no_loop(classes, line, 1, (steps - 1) as nat);
    } else if at < line.len() - 1 {
        assert(classes[line[at] as int].superclass == Some(line[at + 1]));
        lemma_no_loop(classes, line, at + 1, (steps - 1) as nat);
    }
}

/// Whether a binary is the last one of its name.
pub open spec fn is_last(graph: Seq<BinaryDependencyNode>, i: int) -> bool {
    &&& 0 <= i < graph.len()
    &&& forall|k: int| i < k < graph.len() ==> (#[trigger] graph[k]).name@ != graph[i].name@
}

/// Whether a path is that of a library with a name: the name itself, or the
/// name in the directory of libraries.
pub open spec fn is_path_to(path: Seq<char>, name: Seq<char>) -> bool {
    ||| path == "/usr/lib/"@ + name
    ||| path == name && forall|rest: Seq<char>| path != #[trigger] ("/usr/lib/"@ + rest)
}

/// Whether a binary of some name depends on a library of some other name.
pub open spec fn wants(
    graph: Seq<BinaryDependencyNode>,
    k: int,
    p: int,
    name: Seq<char>,
    library: Seq<char>,
) -> bool {
    &&& 0 <= k < graph.len()
    &&& 0 <= p < graph[k].dependencies@.len()
    &&& graph[k].name@ == name
    &&& is_path_to(graph[k].dependencies@[p]@, library)
}

proof fn lemma_last(graph: Seq<BinaryDependencyNode>, name: Seq<char>, count: int)
    requires
        0 <= count <= graph.len(),
        forall|k: int| count <= k < graph.len() ==> (#[trigger] graph[k]).name@ != name,
    ensures
        match last_named(graph, name, count) {
            Some(i) => is_last(graph, i) && graph[i].name@ == name,
            None => forall|k: int| 0 <= k < graph.len() ==> (#[trigger] graph[k]).name@ != name,
        },
    decreases count,
{
    if count > 0 && graph[count - 1].name@ != name {
        lemma_last(graph, name, count - 1);
    }
}

proof fn lemma_short(path: Seq<char>, name: Seq<char>)
    ensures
        is_path_to(path, name) == (short_name(path) == name),
{
    let dir = "/usr/lib/"@;
    if after_prefix(path, dir) is Some {
        assert(path =~= dir + path.skip(dir.len() as int));
    }
    assert forall|rest: Seq<char>| path == #[trigger] (dir + rest) implies after_prefix(path, dir)
        == Some(rest) by {
        assert(path.take(dir.len() as int) =~= dir);
        assert(path.skip(dir.len() as int) =~= rest);
    }
}

/// An order has the last binary of each name, once, and nothing else, and each
/// of them after all libraries that a binary of its name depends on.
pub proof fn libraries_are_initialized_first(
    graph: &[BinaryDependencyNode],
    order: Vec<usize>,
    i: int,
    k: int,
    p: int,
    library: usize,
)
    requires
        call_ensures(generate_binary_load_order, (graph,), Ok(order)),
    ensures
        forall|a: int, b: int| 0 <= a < b < order@.len() ==> order@[a] != order@[b],
        forall|n: usize| #[trigger] order@.contains(n) <==> is_last(graph@, n as int),
        0 <= i < order@.len() && is_last(graph@, library as int) && wants(
            graph@,
            k,
            p,
            graph@[order@[i] as int].name@,
            graph@[library as int].name@,
        ) ==> exists|j: int| 0 <= j < i && order@[j] == library,
{
    let g = graph@;
    assert forall|n: usize| #[trigger] order@.contains(n) <==> is_last(g, n as int) by {
        lemma_node(g, n as int);
        if order@.contains(n) {
            let a = choose|a: int| 0 <= a < order@.len() && order@[a] == n;
            assert(is_node(g, order@[a] as int));
        }
    }
    if 0 <= i < order@.len() && is_last(g, library as int) && wants(
        g,
        k,
        p,
        g[order@[i] as int].name@,
        g[library as int].name@,
    ) {
        let n = order@[i] as int;
        assert(order@.contains(order@[i]));
        lemma_node(g, n);
        lemma_node(g, library as int);
        lemma_short(g[k].dependencies@[p]@, g[library as int].name@);
        assert(g[k].dependencies@[p] == g[k].dependencies@[p]);
        assert(depends_on(g, n, library as int));
        assert(order@.take(i).contains(library));
        let j = choose|j: int| 0 <= j < order@.take(i).len() && order@.take(i)[j] == library;
        assert(order@[j] == library);
    }
}

proof fn lemma_node(graph: Seq<BinaryDependencyNode>, i: int)
    ensures
        is_node(graph, i) == is_last(graph, i),
{
    if 0 <= i < graph.len() {
        lemma_last(graph, graph[i].name@, graph.len() as int);
        if is_last(graph, i) && named(graph, graph[i].name@) is Some {
            let l = named(graph, graph[i].name@).unwrap();
            assert(graph[l].name@ == graph[i].name@);
            if l < i {
                assert(graph[i].name@ != graph[l].name@);
            }
        }
    }
}

/// There is no order only if some of the binaries all depend on one another, so
/// that none of them can be the first: the one that is named is one of these.
pub proof fn only_loops_have_no_order(graph: &[BinaryDependencyNode], node: usize)
    requires
        call_ensures(generate_binary_load_order, (graph,), Err(node)),
    ensures
        exists|loop_: Set<usize>| loop_.contains(node) && #[trigger] is_loop(graph@, loop_),
{
    let nodes = choose|nodes: Set<usize>|
        nodes.contains(node) && #[trigger] is_stuck(graph@, nodes);
    assert(is_loop(graph@, nodes)) by {
        assert forall|n: usize| #[trigger] nodes.contains(n) implies is_last(graph@, n as int)
            && has_library_in(graph@, nodes, n) by {
            reveal(has_library_in);
            lemma_node(graph@, n as int);
            let library = lemma_leans_on(graph@, nodes, n);
            assert(nodes.contains(library));
            assert(is_node(graph@, library as int));
            lemma_node(graph@, library as int);
            let (k, p) = choose|k: int, p: int|
                #![trigger graph@[k].dependencies@[p]]
                0 <= k < graph@.len() && 0 <= p < graph@[k].dependencies@.len() && named(
                    graph@,
                    graph@[k].name@,
                ) == Some(n as int) && named(
                    graph@,
                    short_name(graph@[k].dependencies@[p]@),
                ) == Some(library as int);
            lemma_last(graph@, graph@[k].name@, graph@.len() as int);
            lemma_last(
                graph@,
                short_name(graph@[k].dependencies@[p]@),
                graph@.len() as int,
            );
            lemma_short(graph@[k].dependencies@[p]@, graph@[library as int].name@);
            assert(wants(graph@, k, p, graph@[n as int].name@, graph@[library as int].name@));
        }
    }
}

/// Whether each of some binaries depends on one of them.
pub open spec fn is_loop(graph: Seq<BinaryDependencyNode>, nodes: Set<usize>) -> bool {
    forall|n: usize| #[trigger]
        nodes.contains(n) ==> is_last(graph, n as int) && has_library_in(graph, nodes, n)
}

/// Whether a binary depends on one of some others.
#[verifier::opaque]
pub open spec fn has_library_in(
    graph: Seq<BinaryDependencyNode>,
    nodes: Set<usize>,
    n: usize,
) -> bool {
    exists|library: usize, k: int, p: int|
        #![trigger nodes.contains(library), graph[k].dependencies@[p]]
        nodes.contains(library) && wants(
            graph,
            k,
            p,
            graph[n as int].name@,
            graph[library as int].name@,
        )
}

/// The device is turned only for an app that lists orientations and none of
/// them is portrait, and only if it was held in portrait: against the direction
/// that the interface has to turn in.
pub proof fn device_turns_against_the_interface(
    initial: DeviceOrientation,
    supported: &Vec<String>,
    orientation: DeviceOrientation,
)
    requires
        call_ensures(startup_orientation, (initial, supported), orientation),
    ensures
        initial != DeviceOrientation::Portrait || supported@.len() == 0 ==> orientation == initial,
        (exists|i: int|
            0 <= i < supported@.len() && (#[trigger] supported@[i])@
                == "UIInterfaceOrientationPortrait"@) ==> orientation == initial,
        initial == DeviceOrientation::Portrait && supported@.len() > 0 && (forall|i: int|
            0 <= i < supported@.len() ==> (#[trigger] supported@[i])@
                != "UIInterfaceOrientationPortrait"@) ==> {
            let first = supported@[0]@;
            &&& first == "UIInterfaceOrientationLandscapeLeft"@ ==> orientation
                == DeviceOrientation::LandscapeRight
            &&& first == "UIInterfaceOrientationLandscapeRight"@ ==> orientation
                == DeviceOrientation::LandscapeLeft
            &&& first == "UIInterfaceOrientationLandscape"@ ==> orientation
                == DeviceOrientation::LandscapeLeft
            &&& first != "UIInterfaceOrientationLandscapeLeft"@ && first
                != "UIInterfaceOrientationLandscapeRight"@ && first
                != "UIInterfaceOrientationLandscape"@ ==> orientation
                == DeviceOrientation::Portrait
        },
{
    reveal_strlit("UIInterfaceOrientationLandscapeLeft");
    reveal_strlit("UIInterfaceOrientationLandscapeRight");
    reveal_strlit("UIInterfaceOrientationLandscape");
    let left = "UIInterfaceOrientationLandscapeLeft"@;
    let right = "UIInterfaceOrientationLandscapeRight"@;
    let any = "UIInterfaceOrientationLandscape"@;
    assert(left.len() != right.len() && left.len() != any.len() && right.len() != any.len());
}

/// An app is shown a device that it supports, if it supports any. The user's
/// wish counts where it can be met, and phones come first otherwise.
pub proof fn device_is_one_that_is_supported(
    wish: Option<bool>,
    phone: bool,
    ipad: bool,
    choice: FamilyChoice,
)
    requires
        call_ensures(choose_device_family, (wish, phone, ipad), choice),
    ensures
        choice is Override <==> (wish == Some(true) && ipad) || (wish == Some(false) && phone),
        choice is DefaultPhone ==> phone || !ipad,
        choice is DefaultIpad ==> ipad && !phone,
{
}

/// The bundled libraries with base addresses of their own keep apart: no two
/// different ones are moved to the same place. Those that were built with their
/// base address are not moved, and others are not known.
pub proof fn bundled_libraries_keep_apart(a: &str, b: &str, first: Option<u32>, second: Option<u32>)
    requires
        call_ensures(dylib_slide, (a,), first),
        call_ensures(dylib_slide, (b,), second),
    ensures
        a@ == "libstdc++.6.dylib"@ || a@ == "libstdc++.6.0.9.dylib"@ ==> first == Some(
            0x3748_a000u32,
        ),
        a@ == "libgcc_s.1.dylib"@ ==> first == Some(0x3000_0000u32),
        a@ == "libc++.1.dylib"@ ==> first == Some(0x3800_0000u32),
        a@ == "libc++abi.dylib"@ ==> first == Some(0x3810_0000u32),
        a@ == "libiconv.2.dylib"@ ==> first == Some(0x3200_0000u32),
        a@ == "libz.1.dylib"@ || a@ == "libsqlite3.dylib"@ ==> first == Some(0u32),
        first is Some && first == second && first != Some(0u32) ==> a@ == b@ || first == Some(
            0x3748_a000u32,
        ),
{
    reveal_strlit("libstdc++.6.dylib");
    reveal_strlit("libstdc++.6.0.9.dylib");
    reveal_strlit("libgcc_s.1.dylib");
    reveal_strlit("libc++.1.dylib");
    reveal_strlit("libc++abi.dylib");
    reveal_strlit("libiconv.2.dylib");
    reveal_strlit("libz.1.dylib");
    reveal_strlit("libsqlite3.dylib");
    assert("libgcc_s.1.dylib"@[3] == 'g');
    assert("libiconv.2.dylib"@[3] == 'i');
    assert("libz.1.dylib"@[3] == 'z');
    assert("libsqlite3.dylib"@[3] == 's' && "libsqlite3.dylib"@[4] == 'q');
    assert("libstdc++.6.dylib"@[3] == 's' && "libstdc++.6.dylib"@[4] == 't');
    assert("libstdc++.6.0.9.dylib"@[3] == 's' && "libstdc++.6.0.9.dylib"@[4] == 't');
    assert("libc++.1.dylib"@[3] == 'c' && "libc++.1.dylib"@[6] == '.');
    assert("libc++abi.dylib"@[3] == 'c' && "libc++abi.dylib"@[6] == 'a');
}

/// Memory is zeroed out on free for all apps but those whose identifier starts
/// in one of three ways.
pub proof fn few_apps_zero_memory_on_allocation(identifier: &str, on_free: bool)
    requires
        call_ensures(zero_memory_on_free, (identifier,), on_free),
    ensures
        !on_free <==> exists|rest: Seq<char>|
            identifier@ == #[trigger] ("com.ea.spore"@ + rest) || identifier@
                == "com.capybaragames.CritterCrunch"@ + rest || identifier@
                == "com.go.starwave.CritterCrunch"@ + rest,
{
    lemma_prefixed(identifier@, "com.ea.spore"@);
    lemma_prefixed(identifier@, "com.capybaragames.CritterCrunch"@);
    lemma_prefixed(identifier@, "com.go.starwave.CritterCrunch"@);
    if !on_free {
        let a = "com.ea.spore"@;
        let b = "com.capybaragames.CritterCrunch"@;
        let c = "com.go.starwave.CritterCrunch"@;
        let rest = if after_prefix(identifier@, a) is Some {
            after_prefix(identifier@, a).unwrap()
        } else if after_prefix(identifier@, b) is Some {
            after_prefix(identifier@, b).unwrap()
        } else {
            after_prefix(identifier@, c).unwrap()
        };
        let first = a + rest;
        assert(identifier@ == first || identifier@ == b + rest || identifier@ == c + rest);
    }
}

proof fn lemma_prefixed(text: Seq<char>, prefix: Seq<char>)
    ensures
        after_prefix(text, prefix) matches Some(rest) ==> text == prefix + rest,
        forall|rest: Seq<char>| text == #[trigger] (prefix + rest) ==> after_prefix(text, prefix)
            is Some,
{
    if after_prefix(text, prefix) is Some {
        assert(text =~= prefix + text.skip(prefix.len() as int));
    }
    assert forall|rest: Seq<char>| text == #[trigger] (prefix + rest) implies after_prefix(
        text,
        prefix,
    ) is Some by {
        assert(text.take(prefix.len() as int) =~= prefix);
    }
}

} // verus!
