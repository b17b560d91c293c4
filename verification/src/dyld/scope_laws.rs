//! What lookups are done among.
use vstd::prelude::*;

use crate::dyld::laws::{is_complete, reexports_are_followed};
use crate::dyld::lookup_laws::{
    has_no_host, has_no_image, is_host_for, is_image_for, is_listed, lemma_host_for,
    lemma_image_for,
};
use crate::dyld::symbol_lookup::{
    first_host, first_image, ints, lists_path, texts, Images, LookupScope, ScopeView,
};
use crate::dyld::{Dyld, HostDylib};
use crate::mach_o::{ImportInfo, LibraryOrdinal, MachO};

verus! {

/// What decides what is visible.
pub open spec fn loaded_images(dyld: Dyld, bins: Seq<MachO>) -> Images {
    Images { catalogue: dyld.catalogue@, bins, loaded: dyld.loaded_host_dylibs@ }
}

/// Whether a path means a library of the host that is loaded, and none of the
/// images.
pub open spec fn brings_host(images: Images, path: Seq<char>, host: &'static HostDylib) -> bool {
    &&& has_no_image(images.catalogue, images.bins, path)
    &&& exists|h: int| #[trigger]
        is_host_for(images.loaded, path, h) && images.loaded[h] == host
}

/// Whether an image passes another one off as its own.
pub open spec fn reexports_image(images: Images, image: int, r: int, other: int) -> bool {
    &&& 0 <= r < images.bins[image].reexported_libraries@.len()
    &&& is_image_for(
        images.catalogue,
        images.bins,
        images.bins[image].reexported_libraries@[r]@,
        other,
    )
}

/// Whether an image passes a library of the host off as its own.
pub open spec fn reexports_host(
    images: Images,
    image: int,
    r: int,
    host: &'static HostDylib,
) -> bool {
    &&& 0 <= r < images.bins[image].reexported_libraries@.len()
    &&& brings_host(images, images.bins[image].reexported_libraries@[r]@, host)
}

/// Whether all that any of the images passes off as its own is there.
pub open spec fn has_reexports(
    images: Images,
    guests: Seq<int>,
    hosts: Seq<&'static HostDylib>,
) -> bool {
    &&& forall|k: int, r: int, other: int|
        0 <= k < guests.len() && #[trigger] reexports_image(images, guests[k], r, other)
            ==> guests.contains(other)
    &&& forall|k: int, r: int, host: &'static HostDylib|
        0 <= k < guests.len() && #[trigger] reexports_host(images, guests[k], r, host)
            ==> is_listed(hosts, host.path@)
}

/// Whether nothing is there but an image and what images that are there pass
/// off as their own, or what one of some paths means.
pub open spec fn has_reasons(
    images: Images,
    guests: Seq<int>,
    hosts: Seq<&'static HostDylib>,
    image: Option<int>,
    paths: Seq<Seq<char>>,
) -> bool {
    &&& forall|k: int|
        0 <= k < guests.len() ==> image == Some(guests[k]) || #[trigger] has_guest_reason(
            images,
            guests,
            paths,
            k,
        )
    &&& forall|h: int|
        0 <= h < hosts.len() ==> #[trigger] has_host_reason(images, guests, paths, hosts[h])
}

/// Whether an image is there because of one of the paths, or because an image
/// before it passes it off as its own.
pub open spec fn has_guest_reason(
    images: Images,
    guests: Seq<int>,
    paths: Seq<Seq<char>>,
    k: int,
) -> bool {
    ||| exists|p: int|
        0 <= p < paths.len() && is_image_for(
            images.catalogue,
            images.bins,
            #[trigger] paths[p],
            guests[k],
        )
    ||| exists|j: int, r: int|
        0 <= j < k && #[trigger] reexports_image(images, guests[j], r, guests[k])
}

/// Whether a library of the host is there because of one of the paths, or
/// because one of the images passes it off as its own.
pub open spec fn has_host_reason(
    images: Images,
    guests: Seq<int>,
    paths: Seq<Seq<char>>,
    host: &'static HostDylib,
) -> bool {
    ||| exists|p: int| 0 <= p < paths.len() && brings_host(images, #[trigger] paths[p], host)
    ||| exists|j: int, r: int|
        0 <= j < guests.len() && #[trigger] reexports_host(images, guests[j], r, host)
}

/// Whether a scope is that of an image: the image first, each image once, and
/// with all that they pass off as their own.
pub open spec fn is_scope_of_image(
    images: Images,
    guests: Seq<int>,
    hosts: Seq<&'static HostDylib>,
    image: int,
) -> bool {
    &&& guests.len() > 0
    &&& guests[0] == image
    &&& guests.no_duplicates()
    &&& has_reexports(images, guests, hosts)
    &&& has_reasons(images, guests, hosts, Some(image), Seq::empty())
}

/// Whether what a scope has beyond another one has its reasons.
spec fn is_founded(
    after: ScopeView,
    before: ScopeView,
    images: Images,
    paths: Seq<Seq<char>>,
) -> bool {
    &&& before.guests.len() <= after.guests.len()
    &&& after.guests.take(before.guests.len() as int) == before.guests
    &&& before.hosts.len() <= after.hosts.len()
    &&& after.hosts.take(before.hosts.len() as int) == before.hosts
    &&& forall|k: int|
        before.guests.len() <= k < after.guests.len() ==> is_guest_founded(
            after,
            images,
            paths,
            k,
        )
    &&& forall|h: int|
        before.hosts.len() <= h < after.hosts.len() ==> is_host_founded(after, images, paths, h)
}

spec fn is_guest_founded(
    after: ScopeView,
    images: Images,
    paths: Seq<Seq<char>>,
    k: int,
) -> bool {
    has_guest_reason(images, after.guests, paths, k)
}

spec fn is_host_founded(
    after: ScopeView,
    images: Images,
    paths: Seq<Seq<char>>,
    h: int,
) -> bool {
    has_host_reason(images, after.guests, paths, after.hosts[h])
}

proof fn lemma_founded_path(scope: ScopeView, images: Images, path: Seq<char>, fuel: nat)
    ensures
        is_founded(scope.with_path(images, path, fuel), scope, images, seq![path]),
    decreases fuel, 1nat,
{
    let paths = seq![path];
    let after = scope.with_path(images, path, fuel);
    lemma_image_for(images.catalogue, images.bins, path);
    lemma_host_for(images.loaded, path);
    assert(scope.guests.take(scope.guests.len() as int) =~= scope.guests);
    assert(scope.hosts.take(scope.hosts.len() as int) =~= scope.hosts);
    match first_image(images.catalogue, images.bins, path, 0) {
        Some(image) => {
            lemma_founded_image(scope, images, image, fuel);
            assert forall|k: int|
                scope.guests.len() <= k < after.guests.len() implies is_guest_founded(
                after,
                images,
                paths,
                k,
            ) by {
                if k == scope.guests.len() {
                    assert(paths[0] == path);
                } else {
                    assert(is_guest_founded(after, images, Seq::empty(), k));
                }
            }
            assert forall|h: int|
                scope.hosts.len() <= h < after.hosts.len() implies is_host_founded(
                after,
                images,
                paths,
                h,
            ) by {
                assert(is_host_founded(after, images, Seq::empty(), h));
            }
        },
        None => {
            if let Some(h) = first_host(images.loaded, path, 0) {
                assert(after.hosts.take(scope.hosts.len() as int) =~= scope.hosts);
                assert(is_host_for(images.loaded, path, h));
                assert(brings_host(images, path, images.loaded[h]));
                assert(paths[0] == path);
            }
        },
    }
}

proof fn lemma_founded_paths(
    scope: ScopeView,
    images: Images,
    paths: Seq<Seq<char>>,
    from: int,
    fuel: nat,
)
    requires
        0 <= from <= paths.len(),
    ensures
        is_founded(scope.with_paths(images, paths, from, fuel), scope, images, paths),
    decreases fuel, 2 + paths.len() - from,
{
    assert(scope.guests.take(scope.guests.len() as int) =~= scope.guests);
    assert(scope.hosts.take(scope.hosts.len() as int) =~= scope.hosts);
    if from < paths.len() {
        let next = scope.with_path(images, paths[from], fuel);
        let after = next.with_paths(images, paths, from + 1, fuel);
        lemma_founded_path(scope, images, paths[from], fuel);
        lemma_founded_paths(next, images, paths, from + 1, fuel);
        assert(after.guests.take(scope.guests.len() as int) =~= next.guests.take(
            scope.guests.len() as int,
        ));
        assert(after.hosts.take(scope.hosts.len() as int) =~= next.hosts.take(
            scope.hosts.len() as int,
        ));
        assert forall|k: int| 0 <= k < next.guests.len() implies #[trigger] after.guests[k]
            == next.guests[k] by {
            assert(after.guests.take(next.guests.len() as int)[k] == next.guests[k]);
        }
        assert forall|h: int| 0 <= h < next.hosts.len() implies #[trigger] after.hosts[h]
            == next.hosts[h] by {
            assert(after.hosts.take(next.hosts.len() as int)[h] == next.hosts[h]);
        }
        let one = seq![paths[from]];
        assert forall|k: int|
            scope.guests.len() <= k < after.guests.len() implies is_guest_founded(
            after,
            images,
            paths,
            k,
        ) by {
            if k < next.guests.len() {
                assert(is_guest_founded(next, images, one, k));
                if exists|p: int|
                    0 <= p < one.len() && is_image_for(
                        images.catalogue,
                        images.bins,
                        #[trigger] one[p],
                        next.guests[k],
                    ) {
                    assert(one[0] == paths[from]);
                } else {
                    let (j, r) = choose|j: int, r: int|
                        0 <= j < k && #[trigger] reexports_image(
                            images,
                            next.guests[j],
                            r,
                            next.guests[k],
                        );
                    assert(reexports_image(images, after.guests[j], r, after.guests[k]));
                }
            }
        }
        assert forall|h: int|
            scope.hosts.len() <= h < after.hosts.len() implies is_host_founded(
            after,
            images,
            paths,
            h,
        ) by {
            if h < next.hosts.len() {
                assert(is_host_founded(next, images, one, h));
                if exists|p: int|
                    0 <= p < one.len() && brings_host(images, #[trigger] one[p], next.hosts[h]) {
                    assert(one[0] == paths[from]);
                } else {
                    let (j, r) = choose|j: int, r: int|
                        0 <= j < next.guests.len() && #[trigger] reexports_host(
                            images,
                            next.guests[j],
                            r,
                            next.hosts[h],
                        );
                    assert(reexports_host(images, after.guests[j], r, after.hosts[h]));
                }
            }
        }
    }
}

/// What comes with an image is founded on the images that are there, and the
/// image itself comes first.
proof fn lemma_founded_image(scope: ScopeView, images: Images, image: int, fuel: nat)
    ensures
        ({
            let after = scope.with_image(images, image, fuel);
            let n = scope.guests.len() as int;
            &&& n <= after.guests.len()
            &&& after.guests.take(n) == scope.guests
            &&& scope.hosts.len() <= after.hosts.len()
            &&& after.hosts.take(scope.hosts.len() as int) == scope.hosts
            &&& n < after.guests.len() ==> after.guests[n] == image
            &&& forall|k: int|
                n < k < after.guests.len() ==> is_guest_founded(after, images, Seq::empty(), k)
            &&& forall|h: int|
                scope.hosts.len() <= h < after.hosts.len() ==> is_host_founded(
                    after,
                    images,
                    Seq::empty(),
                    h,
                )
        }),
    decreases fuel, 0nat,
{
    let n = scope.guests.len() as int;
    assert(scope.guests.take(n) =~= scope.guests);
    assert(scope.hosts.take(scope.hosts.len() as int) =~= scope.hosts);
    if fuel > 0 && !scope.guests.contains(image) {
        let pushed = ScopeView { guests: scope.guests.push(image), ..scope };
        let paths = texts(images.bins[image].reexported_libraries@);
        let after = pushed.with_paths(images, paths, 0, (fuel - 1) as nat);
        lemma_founded_paths(pushed, images, paths, 0, (fuel - 1) as nat);
        assert(after.guests.take(n + 1)[n] == image);
        assert(after.guests.take(n) =~= after.guests.take(n + 1).take(n));
        assert(pushed.guests.take(n) =~= scope.guests);
        assert forall|k: int| n < k < after.guests.len() implies is_guest_founded(
            after,
            images,
            Seq::empty(),
            k,
        ) by {
            assert(is_guest_founded(after, images, paths, k));
            if exists|p: int|
                0 <= p < paths.len() && is_image_for(
                    images.catalogue,
                    images.bins,
                    #[trigger] paths[p],
                    after.guests[k],
                ) {
                let p = choose|p: int|
                    0 <= p < paths.len() && is_image_for(
                        images.catalogue,
                        images.bins,
                        #[trigger] paths[p],
                        after.guests[k],
                    );
                assert(reexports_image(images, after.guests[n], p, after.guests[k]));
            }
        }
        assert forall|h: int|
            scope.hosts.len() <= h < after.hosts.len() implies is_host_founded(
            after,
            images,
            Seq::empty(),
            h,
        ) by {
            assert(is_host_founded(after, images, paths, h));
            if exists|p: int|
                0 <= p < paths.len() && brings_host(images, #[trigger] paths[p], after.hosts[h]) {
                let p = choose|p: int|
                    0 <= p < paths.len() && brings_host(
                        images,
                        #[trigger] paths[p],
                        after.hosts[h],
                    );
                assert(reexports_host(images, after.guests[n], p, after.hosts[h]));
            }
        }
    }
}

proof fn lemma_covered(images: Images, scope: ScopeView, k: int)
    requires
        0 <= k < scope.guests.len(),
        is_complete(scope, images, scope.guests[k]),
    ensures
        forall|r: int, other: int| #[trigger]
            reexports_image(images, scope.guests[k], r, other) ==> scope.guests.contains(other),
        forall|r: int, host: &'static HostDylib| #[trigger]
            reexports_host(images, scope.guests[k], r, host) ==> is_listed(
                scope.hosts,
                host.path@,
            ),
{
    let paths = texts(images.bins[scope.guests[k]].reexported_libraries@);
    assert forall|r: int, other: int| #[trigger]
        reexports_image(images, scope.guests[k], r, other) implies scope.guests.contains(other) by {
        lemma_image_for(images.catalogue, images.bins, paths[r]);
        assert(crate::dyld::laws::covers(scope, images, paths[r]));
        assert(first_image(images.catalogue, images.bins, paths[r], 0) == Some(other));
    }
    assert forall|r: int, host: &'static HostDylib| #[trigger]
        reexports_host(images, scope.guests[k], r, host) implies is_listed(
        scope.hosts,
        host.path@,
    ) by {
        lemma_image_for(images.catalogue, images.bins, paths[r]);
        lemma_host_for(images.loaded, paths[r]);
        assert(crate::dyld::laws::covers(scope, images, paths[r]));
        let h = choose|h: int| #[trigger]
            is_host_for(images.loaded, paths[r], h) && images.loaded[h] == host;
        assert(first_host(images.loaded, paths[r], 0) == Some(h));
        assert(lists_path(scope.hosts, host.path@));
    }
}

pub proof fn lemma_scope_of_image(images: Images, image: int)
    requires
        0 <= image < images.bins.len(),
    ensures
        ({
            let scope = ScopeView::empty().with_image(images, image, images.bins.len());
            is_scope_of_image(images, scope.guests, scope.hosts, image)
        }),
{
    let empty = ScopeView::empty();
    let scope = empty.with_image(images, image, images.bins.len());
    reexports_are_followed(images, image);
    lemma_founded_image(empty, images, image, images.bins.len());
    assert forall|k: int, r: int, other: int|
        0 <= k < scope.guests.len() && #[trigger] reexports_image(
            images,
            scope.guests[k],
            r,
            other,
        ) implies scope.guests.contains(other) by {
        lemma_covered(images, scope, k);
    }
    assert forall|k: int, r: int, host: &'static HostDylib|
        0 <= k < scope.guests.len() && #[trigger] reexports_host(
            images,
            scope.guests[k],
            r,
            host,
        ) implies is_listed(scope.hosts, host.path@) by {
        lemma_covered(images, scope, k);
    }
    assert forall|k: int| 0 < k < scope.guests.len() implies is_guest_founded(
        scope,
        images,
        Seq::empty(),
        k,
    ) by {}
    let none = Seq::<Seq<char>>::empty();
    assert forall|k: int| 0 <= k < scope.guests.len() implies Some(image) == Some(scope.guests[k])
        || #[trigger] has_guest_reason(images, scope.guests, none, k) by {
        if k > 0 {
            assert(is_guest_founded(scope, images, none, k));
        }
    }
    assert forall|h: int| 0 <= h < scope.hosts.len() implies #[trigger] has_host_reason(
        images,
        scope.guests,
        none,
        scope.hosts[h],
    ) by {
        assert(is_host_founded(scope, images, none, h));
    }
}

/// What a path alone brings into view: the image that it means with all that
/// comes with it, or else the library of the host, or else nothing.
pub open spec fn is_scope_of_path(
    images: Images,
    guests: Seq<int>,
    hosts: Seq<&'static HostDylib>,
    path: Seq<char>,
) -> bool {
    &&& forall|i: int| #[trigger]
        is_image_for(images.catalogue, images.bins, path, i) ==> is_scope_of_image(
            images,
            guests,
            hosts,
            i,
        )
    &&& has_no_image(images.catalogue, images.bins, path) ==> {
        &&& guests.len() == 0
        &&& has_no_host(images.loaded, path) ==> hosts.len() == 0
        &&& forall|h: int| #[trigger]
            is_host_for(images.loaded, path, h) ==> hosts =~= seq![images.loaded[h]]
    }
}

pub proof fn lemma_scope_of_path(images: Images, path: Seq<char>)
    ensures
        ({
            let scope = ScopeView::empty().with_path(images, path, images.bins.len());
            is_scope_of_path(images, scope.guests, scope.hosts, path)
        }),
{
    lemma_image_for(images.catalogue, images.bins, path);
    lemma_host_for(images.loaded, path);
    match first_image(images.catalogue, images.bins, path, 0) {
        Some(image) => {
            lemma_scope_of_image(images, image);
        },
        None => {
            if let Some(h) = first_host(images.loaded, path, 0) {
                let empty = Seq::<&'static HostDylib>::empty();
                assert(!lists_path(empty, images.loaded[h].path@));
                assert(empty.push(images.loaded[h]) =~= seq![images.loaded[h]]);
            }
        },
    }
}

/// Whether a scope has all images in their order, and all libraries of the host
/// that are loaded.
pub open spec fn is_flat(images: Images, guests: Seq<int>, hosts: Seq<&'static HostDylib>) -> bool {
    &&& guests.len() == images.bins.len()
    &&& forall|i: int| 0 <= i < guests.len() ==> #[trigger] guests[i] == i
    &&& hosts == images.loaded
}

/// An import is looked up where its ordinal says: among everything, in the
/// image itself, in the main executable, in one of the image's dependencies, or
/// nowhere. The main executable can demand that it is always among everything.
/// Only the image itself sees its own private symbols.
pub proof fn imports_are_looked_up_by_ordinal(
    dyld: &Dyld,
    importer: usize,
    bins: &[MachO],
    import: ImportInfo,
    scope: LookupScope<'_>,
)
    requires
        importer < bins@.len(),
        call_ensures(Dyld::lookup_scope, (dyld, importer, bins, import), scope),
    ensures
        ({
            let images = loaded_images(*dyld, bins@);
            let guests = ints(scope.guests@);
            let hosts = scope.hosts@;
            let flat = bins@[0].force_flat_namespace;
            let paths = bins@[importer as int].dynamic_libraries@;
            &&& scope.bins@ == bins@
            &&& scope.local_image is Some ==> !flat && import.ordinal is SelfImage
            &&& flat ==> is_flat(images, guests, hosts)
            &&& !flat ==> match import.ordinal {
                LibraryOrdinal::Flat => is_flat(images, guests, hosts),
                LibraryOrdinal::SelfImage => {
                    &&& scope.local_image == Some(importer)
                    &&& is_scope_of_image(images, guests, hosts, importer as int)
                },
                LibraryOrdinal::MainExecutable => is_scope_of_image(images, guests, hosts, 0),
                LibraryOrdinal::Dependency(n) => {
                    &&& 1 <= n <= paths.len() ==> is_scope_of_path(
                        images,
                        guests,
                        hosts,
                        paths[n - 1]@,
                    )
                    &&& !(1 <= n <= paths.len()) ==> guests.len() == 0 && hosts.len() == 0
                },
                LibraryOrdinal::Invalid => guests.len() == 0 && hosts.len() == 0,
            }
        }),
{
    let images = loaded_images(*dyld, bins@);
    lemma_scope_of_image(images, importer as int);
    lemma_scope_of_image(images, 0);
    let paths = bins@[importer as int].dynamic_libraries@;
    if let LibraryOrdinal::Dependency(n) = import.ordinal {
        if 1 <= n <= paths.len() {
            assert(texts(paths)[n - 1] == paths[n - 1]@);
            lemma_scope_of_path(images, paths[n - 1]@);
        }
    }
}

/// What an image and its dependencies bring into view has its reasons.
pub proof fn lemma_self_reasons(images: Images, image: int)
    requires
        0 <= image < images.bins.len(),
    ensures
        ({
            let paths = texts(images.bins[image].dynamic_libraries@);
            let own = ScopeView::empty().with_image(images, image, images.bins.len());
            let scope = own.with_paths(images, paths, 0, images.bins.len());
            has_reasons(images, scope.guests, scope.hosts, Some(image), paths)
        }),
{
    let paths = texts(images.bins[image].dynamic_libraries@);
    let fuel = images.bins.len();
    let own = ScopeView::empty().with_image(images, image, fuel);
    let scope = own.with_paths(images, paths, 0, fuel);
    lemma_scope_of_image(images, image);
    lemma_founded_paths(own, images, paths, 0, fuel);
    assert forall|k: int| 0 <= k < own.guests.len() implies #[trigger] scope.guests[k]
        == own.guests[k] by {
        assert(scope.guests.take(own.guests.len() as int)[k] == own.guests[k]);
    }
    assert forall|h: int| 0 <= h < own.hosts.len() implies #[trigger] scope.hosts[h]
        == own.hosts[h] by {
        assert(scope.hosts.take(own.hosts.len() as int)[h] == own.hosts[h]);
    }
    let none = Seq::<Seq<char>>::empty();
    assert forall|k: int| 0 <= k < scope.guests.len() implies Some(image) == Some(scope.guests[k])
        || #[trigger] has_guest_reason(images, scope.guests, paths, k) by {
        if k < own.guests.len() {
            if own.guests[k] != image {
                assert(has_guest_reason(images, own.guests, none, k));
                let (j, r) = choose|j: int, r: int|
                    0 <= j < k && #[trigger] reexports_image(
                        images,
                        own.guests[j],
                        r,
                        own.guests[k],
                    );
                assert(reexports_image(images, scope.guests[j], r, scope.guests[k]));
            }
        } else {
            assert(is_guest_founded(scope, images, paths, k));
        }
    }
    assert forall|h: int| 0 <= h < scope.hosts.len() implies #[trigger] has_host_reason(
        images,
        scope.guests,
        paths,
        scope.hosts[h],
    ) by {
        if h < own.hosts.len() {
            assert(has_host_reason(images, own.guests, none, own.hosts[h]));
            let (j, r) = choose|j: int, r: int|
                0 <= j < own.guests.len() && #[trigger] reexports_host(
                    images,
                    own.guests[j],
                    r,
                    own.hosts[h],
                );
            assert(reexports_host(images, scope.guests[j], r, scope.hosts[h]));
        } else {
            assert(is_host_founded(scope, images, paths, h));
        }
    }
}

/// Of the images that an image passes off as its own, the one that it names
/// first comes right behind it.
pub proof fn first_reexport_comes_second(
    dyld: &Dyld,
    importer: usize,
    bins: &[MachO],
    weak: bool,
    scope: LookupScope<'_>,
    other: int,
)
    requires
        importer < bins@.len(),
        !bins@[0].force_flat_namespace,
        call_ensures(
            Dyld::lookup_scope,
            (dyld, importer, bins, ImportInfo { ordinal: LibraryOrdinal::SelfImage, weak }),
            scope,
        ),
        reexports_image(loaded_images(*dyld, bins@), importer as int, 0, other),
        other != importer,
    ensures
        scope.guests@.len() > 1,
        scope.guests@[1] == other,
{
    let images = loaded_images(*dyld, bins@);
    let image = importer as int;
    let fuel = bins@.len();
    let empty = ScopeView::empty();
    let pushed = ScopeView { guests: empty.guests.push(image), ..empty };
    let paths = texts(bins@[image].reexported_libraries@);
    lemma_image_for(images.catalogue, images.bins, paths[0]);
    assert(paths[0] == bins@[image].reexported_libraries@[0]@);
    assert(first_image(images.catalogue, images.bins, paths[0], 0) == Some(other));
    let less = (fuel - 1) as nat;
    let next = pushed.with_path(images, paths[0], less);
    let after = next.with_paths(images, paths, 1, less);
    assert(pushed.guests =~= seq![image]);
    assert(!pushed.guests.contains(other));
    assert(less > 0);
    let twice = ScopeView { guests: pushed.guests.push(other), ..pushed };
    let own = texts(bins@[other].reexported_libraries@);
    lemma_founded_paths(twice, images, own, 0, (less - 1) as nat);
    assert(next == twice.with_paths(images, own, 0, (less - 1) as nat));
    assert(next.guests.take(2)[1] == twice.guests[1]);
    lemma_founded_paths(next, images, paths, 1, less);
    assert(after.guests.take(next.guests.len() as int)[1] == next.guests[1]);
    assert(scope.view() == after);
    assert(scope.view().guests[1] == scope.guests@[1] as int);
}

} // verus!
