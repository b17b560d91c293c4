//! Which images and libraries a lookup sees, and what it finds in them.
use vstd::prelude::*;

use crate::dyld::symbol_lookup::{
    after_dependencies, after_images, first_host, first_image, has_path, has_text, is_path_of,
    lists_path, texts, with_host, with_text,
};
use crate::dyld::{Dyld, HostDylib};
use crate::mach_o::MachO;
use crate::text::file_name;

verus! {

/// Whether a library of the host is known under a path.
pub open spec fn goes_by(host: HostDylib, path: Seq<char>) -> bool {
    host.path@ == path || exists|i: int|
        0 <= i < host.aliases@.len() && (#[trigger] host.aliases@[i])@ == path
}

/// Whether a library is the first of some that is known under a path.
pub open spec fn is_host_for(hosts: Seq<&'static HostDylib>, path: Seq<char>, h: int) -> bool {
    &&& 0 <= h < hosts.len()
    &&& goes_by(*hosts[h], path)
    &&& forall|k: int| 0 <= k < h ==> !goes_by(*#[trigger] hosts[k], path)
}

/// Whether no library is known under a path.
pub open spec fn has_no_host(hosts: Seq<&'static HostDylib>, path: Seq<char>) -> bool {
    forall|k: int| 0 <= k < hosts.len() ==> !goes_by(*#[trigger] hosts[k], path)
}

/// Whether a path is that of a file with a name, in some directory or none.
pub open spec fn is_file(path: Seq<char>, name: Seq<char>) -> bool {
    &&& !name.contains('/')
    &&& path == name || exists|k: int|
        0 <= k < path.len() && #[trigger] path[k] == '/' && path.skip(k + 1) == name
}

/// Whether a path means an image: by its install name or a path under which the
/// host knows the same library, or by its file name where it has no install
/// name.
pub open spec fn stands_for(
    catalogue: Seq<&'static HostDylib>,
    image: MachO,
    path: Seq<char>,
) -> bool {
    match image.install_name {
        Some(own) => own@ == path || exists|a: int, b: int|
            #![trigger is_host_for(catalogue, own@, a), is_host_for(catalogue, path, b)]
            is_host_for(catalogue, own@, a) && is_host_for(catalogue, path, b)
                && catalogue[a].path@ == catalogue[b].path@,
        None => image.name@ == path || is_file(path, image.name@),
    }
}

/// Whether an image is the first one that a path means.
pub open spec fn is_image_for(
    catalogue: Seq<&'static HostDylib>,
    bins: Seq<MachO>,
    path: Seq<char>,
    i: int,
) -> bool {
    &&& 0 <= i < bins.len()
    &&& stands_for(catalogue, bins[i], path)
    &&& forall|k: int| 0 <= k < i ==> !stands_for(catalogue, #[trigger] bins[k], path)
}

/// Whether a path means none of the images.
pub open spec fn has_no_image(
    catalogue: Seq<&'static HostDylib>,
    bins: Seq<MachO>,
    path: Seq<char>,
) -> bool {
    forall|k: int| 0 <= k < bins.len() ==> !stands_for(catalogue, #[trigger] bins[k], path)
}

/// The name that an image goes by once it is opened.
pub open spec fn own_name(image: MachO) -> Seq<char> {
    match image.install_name {
        Some(name) => name@,
        None => image.name@,
    }
}

/// Whether a library with a path is listed.
pub open spec fn is_listed(hosts: Seq<&'static HostDylib>, path: Seq<char>) -> bool {
    exists|i: int| 0 <= i < hosts.len() && (#[trigger] hosts[i]).path@ == path
}

/// Whether a path is among some.
pub open spec fn is_among(paths: Seq<&'static str>, path: Seq<char>) -> bool {
    exists|i: int| 0 <= i < paths.len() && (#[trigger] paths[i])@ == path
}

proof fn lemma_goes_by(host: HostDylib, path: Seq<char>)
    ensures
        goes_by(host, path) == has_path(host, path),
{
}

pub proof fn lemma_host_for(hosts: Seq<&'static HostDylib>, path: Seq<char>)
    ensures
        match first_host(hosts, path, 0) {
            Some(h) => is_host_for(hosts, path, h),
            None => has_no_host(hosts, path),
        },
{
    lemma_host_from(hosts, path, 0);
}

proof fn lemma_host_from(hosts: Seq<&'static HostDylib>, path: Seq<char>, from: int)
    requires
        0 <= from,
        forall|k: int| 0 <= k < from && k < hosts.len() ==> !goes_by(*#[trigger] hosts[k], path),
    ensures
        match first_host(hosts, path, from) {
            Some(h) => is_host_for(hosts, path, h),
            None => has_no_host(hosts, path),
        },
    decreases hosts.len() - from,
{
    if from < hosts.len() {
        lemma_goes_by(*hosts[from], path);
        if !has_path(*hosts[from], path) {
            lemma_host_from(hosts, path, from + 1);
        }
    }
}

proof fn lemma_file_name(path: Seq<char>)
    ensures
        !file_name(path).contains('/'),
        path == file_name(path) || exists|k: int|
            0 <= k < path.len() && #[trigger] path[k] == '/' && path.skip(k + 1) == file_name(path),
    decreases path.len(),
{
    if path.len() > 0 && path.last() != '/' {
        let shorter = path.drop_last();
        lemma_file_name(shorter);
        let name = file_name(shorter);
        let longer = name.push(path.last());
        assert forall|i: int| 0 <= i < longer.len() implies longer[i] != '/' by {
            if i < name.len() {
                assert(name.contains(name[i]));
            }
        }
        if shorter == name {
            assert(path =~= longer);
        } else {
            let k = choose|k: int|
                0 <= k < shorter.len() && #[trigger] shorter[k] == '/' && shorter.skip(k + 1)
                    == name;
            assert(path[k] == '/');
            assert(path.skip(k + 1) =~= longer);
        }
    } else if path.len() > 0 {
        assert(path[path.len() - 1] == '/');
        assert(path.skip(path.len() as int) =~= Seq::empty());
    } else {
        assert(path =~= Seq::empty());
    }
}

proof fn lemma_is_file(path: Seq<char>, name: Seq<char>)
    ensures
        is_file(path, name) == (name == file_name(path)),
{
    lemma_file_name(path);
    if is_file(path, name) {
        let last = file_name(path);
        let a = if path == name {
            -1int
        } else {
            choose|k: int|
                0 <= k < path.len() && #[trigger] path[k] == '/' && path.skip(k + 1) == name
        };
        let b = if path == last {
            -1int
        } else {
            choose|k: int|
                0 <= k < path.len() && #[trigger] path[k] == '/' && path.skip(k + 1) == last
        };
        if a < b {
            assert(path.skip(a + 1) =~= name);
            assert(name[b - a - 1] == path[b]);
            assert(name.contains('/'));
        } else if b < a {
            assert(path.skip(b + 1) =~= last);
            assert(last[a - b - 1] == path[a]);
            assert(last.contains('/'));
        }
        assert(path.skip(a + 1) =~= name);
        assert(path.skip(b + 1) =~= last);
    }
}

proof fn lemma_stands_for(catalogue: Seq<&'static HostDylib>, image: MachO, path: Seq<char>)
    ensures
        stands_for(catalogue, image, path) == is_path_of(catalogue, image, path),
{
    match image.install_name {
        Some(own) => {
            lemma_host_for(catalogue, own@);
            lemma_host_for(catalogue, path);
        },
        None => {
            lemma_is_file(path, image.name@);
        },
    }
}

pub proof fn lemma_image_for(
    catalogue: Seq<&'static HostDylib>,
    bins: Seq<MachO>,
    path: Seq<char>,
)
    ensures
        match first_image(catalogue, bins, path, 0) {
            Some(i) => is_image_for(catalogue, bins, path, i),
            None => has_no_image(catalogue, bins, path),
        },
{
    lemma_image_from(catalogue, bins, path, 0);
}

proof fn lemma_image_from(
    catalogue: Seq<&'static HostDylib>,
    bins: Seq<MachO>,
    path: Seq<char>,
    from: int,
)
    requires
        0 <= from,
        forall|k: int|
            0 <= k < from && k < bins.len() ==> !stands_for(catalogue, #[trigger] bins[k], path),
    ensures
        match first_image(catalogue, bins, path, from) {
            Some(i) => is_image_for(catalogue, bins, path, i),
            None => has_no_image(catalogue, bins, path),
        },
    decreases bins.len() - from,
{
    if from < bins.len() {
        lemma_stands_for(catalogue, bins[from], path);
        if !is_path_of(catalogue, bins[from], path) {
            lemma_image_from(catalogue, bins, path, from + 1);
        }
    }
}

/// Whether a dependency of an image, which no image provides, is a library of
/// the host.
pub open spec fn needs(
    catalogue: Seq<&'static HostDylib>,
    bins: Seq<MachO>,
    image: int,
    dependency: int,
    h: int,
) -> bool {
    &&& 0 <= image < bins.len()
    &&& 0 <= dependency < bins[image].dynamic_libraries@.len()
    &&& has_no_image(catalogue, bins, bins[image].dynamic_libraries@[dependency]@)
    &&& is_host_for(catalogue, bins[image].dynamic_libraries@[dependency]@, h)
}

/// What holds after the first dependencies of the first images.
spec fn is_registered(
    catalogue: Seq<&'static HostDylib>,
    bins: Seq<MachO>,
    start: (Seq<&'static HostDylib>, Seq<&'static str>),
    now: (Seq<&'static HostDylib>, Seq<&'static str>),
    images: int,
    dependencies: int,
) -> bool {
    &&& start.0.len() <= now.0.len() && now.0.take(start.0.len() as int) == start.0
    &&& start.1.len() <= now.1.len() && now.1.take(start.1.len() as int) == start.1
    &&& forall|i: int, j: int, h: int| #[trigger]
        needs(catalogue, bins, i, j, h) && (i < images || (i == images && j < dependencies))
            ==> is_listed(now.0, catalogue[h].path@) && is_among(now.1, catalogue[h].path@)
    &&& forall|path: Seq<char>| #[trigger]
        is_listed(now.0, path) ==> is_listed(start.0, path) || exists|i: int, j: int, h: int|
            #[trigger] needs(catalogue, bins, i, j, h) && catalogue[h].path@ == path
    &&& forall|path: Seq<char>| #[trigger]
        is_among(now.1, path) ==> is_among(start.1, path) || exists|i: int, j: int, h: int|
            #[trigger] needs(catalogue, bins, i, j, h) && catalogue[h].path@ == path
}

proof fn lemma_listed_more(
    hosts: Seq<&'static HostDylib>,
    paths: Seq<&'static str>,
    host: &'static HostDylib,
)
    ensures
        ({
            let more = with_host(hosts, host);
            let more_paths = with_text(paths, host.path);
            &&& hosts.len() <= more.len() && more.take(hosts.len() as int) == hosts
            &&& paths.len() <= more_paths.len() && more_paths.take(paths.len() as int) == paths
            &&& forall|path: Seq<char>| #[trigger]
                is_listed(more, path) <==> is_listed(hosts, path) || path == host.path@
            &&& forall|path: Seq<char>| #[trigger]
                is_among(more_paths, path) <==> is_among(paths, path) || path == host.path@
        }),
{
    let more = with_host(hosts, host);
    let more_paths = with_text(paths, host.path);
    assert(lists_path(hosts, host.path@) == is_listed(hosts, host.path@));
    assert(has_text(paths, host.path@) == is_among(paths, host.path@));
    assert(more.take(hosts.len() as int) =~= hosts);
    assert(more_paths.take(paths.len() as int) =~= paths);
    assert forall|path: Seq<char>| #[trigger] is_listed(more, path) <==> is_listed(hosts, path)
        || path == host.path@ by {
        if is_listed(hosts, path) {
            let i = choose|i: int| 0 <= i < hosts.len() && (#[trigger] hosts[i]).path@ == path;
            assert(more[i].path@ == path);
        }
        if !is_listed(hosts, host.path@) {
            assert(more[hosts.len() as int].path@ == host.path@);
        }
        if is_listed(more, path) && path != host.path@ {
            let i = choose|i: int| 0 <= i < more.len() && (#[trigger] more[i]).path@ == path;
            assert(hosts[i].path@ == path);
        }
    }
    assert forall|path: Seq<char>| #[trigger] is_among(more_paths, path) <==> is_among(paths, path)
        || path == host.path@ by {
        if is_among(paths, path) {
            let i = choose|i: int| 0 <= i < paths.len() && (#[trigger] paths[i])@ == path;
            assert(more_paths[i]@ == path);
        }
        if !is_among(paths, host.path@) {
            assert(more_paths[paths.len() as int]@ == host.path@);
        }
        if is_among(more_paths, path) && path != host.path@ {
            let i = choose|i: int|
                0 <= i < more_paths.len() && (#[trigger] more_paths[i])@ == path;
            assert(paths[i]@ == path);
        }
    }
}

proof fn lemma_dependencies(
    catalogue: Seq<&'static HostDylib>,
    bins: Seq<MachO>,
    start: (Seq<&'static HostDylib>, Seq<&'static str>),
    before: (Seq<&'static HostDylib>, Seq<&'static str>),
    image: int,
    count: int,
)
    requires
        0 <= image < bins.len(),
        0 <= count <= bins[image].dynamic_libraries@.len(),
        is_registered(catalogue, bins, start, before, image, 0),
    ensures
        is_registered(
            catalogue,
            bins,
            start,
            after_dependencies(
                catalogue,
                bins,
                before,
                texts(bins[image].dynamic_libraries@),
                count,
            ),
            image,
            count,
        ),
    decreases count,
{
    if count > 0 {
        lemma_dependencies(catalogue, bins, start, before, image, count - 1);
        let paths = texts(bins[image].dynamic_libraries@);
        let few = after_dependencies(catalogue, bins, before, paths, count - 1);
        let now = after_dependencies(catalogue, bins, before, paths, count);
        let path = paths[count - 1];
        assert(path == bins[image].dynamic_libraries@[count - 1]@);
        lemma_image_for(catalogue, bins, path);
        lemma_host_for(catalogue, path);
        if first_image(catalogue, bins, path, 0) is None {
            if let Some(h) = first_host(catalogue, path, 0) {
                lemma_listed_more(few.0, few.1, catalogue[h]);
                assert(needs(catalogue, bins, image, count - 1, h));
                assert(now.0.take(start.0.len() as int) =~= few.0.take(start.0.len() as int));
                assert(now.1.take(start.1.len() as int) =~= few.1.take(start.1.len() as int));
            }
        }
        assert forall|i: int, j: int, h: int| #[trigger]
            needs(catalogue, bins, i, j, h) && (i < image || (i == image && j
                < count)) implies is_listed(now.0, catalogue[h].path@) && is_among(
            now.1,
            catalogue[h].path@,
        ) by {
            if i == image && j == count - 1 {
                assert(first_host(catalogue, path, 0) == Some(h));
            } else {
                assert(is_listed(few.0, catalogue[h].path@) && is_among(
                    few.1,
                    catalogue[h].path@,
                ));
            }
        }
        assert forall|p: Seq<char>| #[trigger] is_listed(now.0, p) implies is_listed(start.0, p)
            || exists|i: int, j: int, h: int| #[trigger]
            needs(catalogue, bins, i, j, h) && catalogue[h].path@ == p by {
            if is_listed(few.0, p) {
            }
        }
        assert forall|p: Seq<char>| #[trigger] is_among(now.1, p) implies is_among(start.1, p)
            || exists|i: int, j: int, h: int| #[trigger]
            needs(catalogue, bins, i, j, h) && catalogue[h].path@ == p by {
            if is_among(few.1, p) {
            }
        }
    }
}

proof fn lemma_images(
    catalogue: Seq<&'static HostDylib>,
    bins: Seq<MachO>,
    start: (Seq<&'static HostDylib>, Seq<&'static str>),
    count: int,
)
    requires
        0 <= count <= bins.len(),
    ensures
        is_registered(
            catalogue,
            bins,
            start,
            after_images(catalogue, bins, start, count),
            count,
            0,
        ),
    decreases count,
{
    if count == 0 {
        assert(start.0.take(start.0.len() as int) =~= start.0);
        assert(start.1.take(start.1.len() as int) =~= start.1);
    } else {
        lemma_images(catalogue, bins, start, count - 1);
        let before = after_images(catalogue, bins, start, count - 1);
        let all = bins[count - 1].dynamic_libraries@.len() as int;
        lemma_dependencies(catalogue, bins, start, before, count - 1, all);
    }
}

/// Registering the images makes every library of the host visible, and for
/// good, that any of the images depends on and none of them provides. No other
/// library becomes visible, and none ceases to be.
pub proof fn dependencies_become_visible(dyld: &mut Dyld, bins: &[MachO])
    requires
        call_ensures(Dyld::register_loaded_images, (dyld, bins), ()),
    ensures
        ({
            let catalogue = old(dyld).catalogue@;
            let loaded = final(dyld).loaded_host_dylibs@;
            let pinned = final(dyld).pinned_host_dylibs@;
            let was_loaded = old(dyld).loaded_host_dylibs@;
            let was_pinned = old(dyld).pinned_host_dylibs@;
            &&& forall|i: int, j: int, h: int| #[trigger]
                needs(catalogue, bins@, i, j, h) ==> is_listed(loaded, catalogue[h].path@)
                    && is_among(pinned, catalogue[h].path@)
            &&& forall|path: Seq<char>| #[trigger]
                is_listed(loaded, path) ==> is_listed(was_loaded, path) || exists|
                    i: int,
                    j: int,
                    h: int,
                | #[trigger]
                    needs(catalogue, bins@, i, j, h) && catalogue[h].path@ == path
            &&& forall|path: Seq<char>| #[trigger]
                is_among(pinned, path) ==> is_among(was_pinned, path) || exists|
                    i: int,
                    j: int,
                    h: int,
                | #[trigger]
                    needs(catalogue, bins@, i, j, h) && catalogue[h].path@ == path
            &&& was_loaded.len() <= loaded.len()
            &&& loaded.take(was_loaded.len() as int) == was_loaded
            &&& was_pinned.len() <= pinned.len()
            &&& pinned.take(was_pinned.len() as int) == was_pinned
            &&& final(dyld).catalogue@ == catalogue
            &&& final(dyld).library_handles == old(dyld).library_handles
            &&& final(dyld).dynamic_host_refs == old(dyld).dynamic_host_refs
        }),
{
    let catalogue = old(dyld).catalogue@;
    let start = (old(dyld).loaded_host_dylibs@, old(dyld).pinned_host_dylibs@);
    lemma_images(catalogue, bins@, start, bins@.len() as int);
}

} // verus!
