//! What holds of the dynamic linker across several calls.
use vstd::prelude::*;

use crate::dyld::handles::OpenLibrary;
use crate::dyld::symbol_lookup::{
    effective_ordinal, first_address, first_host, first_image, has_text, lemma_with_host,
    lemma_without_path, listed_once, lists_path, scope_of_import, texts, with_host, Images,
    ScopeView,
};
use crate::dyld::{Dyld, HostDylib};
use crate::mach_o::{ImportInfo, LibraryOrdinal, MachO};
use crate::mem::Mem;
use crate::numeric::counting::lemma_indices_fit;

verus! {

/// Opening a library of the host makes it visible, once, and no other one
/// ceases to be.
pub proof fn opened_library_is_visible(
    before: Dyld,
    after: Dyld,
    bins: Seq<MachO>,
    path: Seq<char>,
    handle: u32,
    other: Seq<char>,
)
    requires
        before.wf(),
        after.is_opened(before, bins, path, handle),
        first_image(before.catalogue@, bins, path, 0) is None,
        first_host(before.catalogue@, path, 0) is Some,
    ensures
        ({
            let host = before.catalogue@[first_host(before.catalogue@, path, 0).unwrap()];
            &&& listed_once(after.loaded_host_dylibs@)
            &&& lists_path(after.loaded_host_dylibs@, other) <==> lists_path(
                before.loaded_host_dylibs@,
                other,
            ) || other == host.path@
        }),
{
    let host = before.catalogue@[first_host(before.catalogue@, path, 0).unwrap()];
    lemma_with_host(before.loaded_host_dylibs@, host);
}

/// Whether every handle is an allocation that the guest did not free itself.
pub open spec fn handles_live(dyld: Dyld, mem: Mem) -> bool {
    forall|handle: u32| (#[trigger] dyld.library_handles.library(handle)) is Some
        ==> mem.blocks().contains_key(handle)
}

/// Opening a library gives a handle that is not in use. All others stay as they
/// are.
pub proof fn opened_handle_is_new(
    before: Dyld,
    after: Dyld,
    mem_before: Mem,
    mem_after: Mem,
    bins: Seq<MachO>,
    path: Seq<char>,
    handle: u32,
)
    requires
        handles_live(before, mem_before),
        mem_after.is_allocation(mem_before, handle, 1),
        after.is_opened(before, bins, path, handle),
    ensures
        handles_live(after, mem_after),
        before.library_handles.library(handle) is None,
        after.library_handles.library(handle) is Some,
        forall|other: u32|
            (#[trigger] before.library_handles.library(other)) is Some ==> {
                &&& other != handle
                &&& after.library_handles.library(other) == before.library_handles.library(other)
            },
{
}

/// Closing a handle leaves all other handles usable.
pub proof fn closed_handle_is_gone(
    before: Dyld,
    after: Dyld,
    mem_before: Mem,
    mem_after: Mem,
    handle: u32,
)
    requires
        handles_live(before, mem_before),
        mem_after.is_release(mem_before, handle),
        after.is_closed(before, handle),
    ensures
        handles_live(after, mem_after),
        after.library_handles.library(handle) is None,
        forall|other: u32|
            other != handle ==> #[trigger] after.library_handles.library(other)
                == before.library_handles.library(other),
{
}

/// Closing hides a library of the host only where the handle was opened from
/// it and was the last one, and no image was linked to it. No other library is
/// hidden.
pub proof fn closing_hides_unused_libraries_only(
    before: Dyld,
    after: Dyld,
    handle: u32,
    other: Seq<char>,
)
    requires
        before.wf(),
        before.library_handles.library(handle) is Some,
        after.is_closed(before, handle),
    ensures
        lists_path(before.loaded_host_dylibs@, other) && !lists_path(
            after.loaded_host_dylibs@,
            other,
        ) ==> {
            &&& before.library_handles.library(handle).unwrap().is_host(other)
            &&& before.library_handles.users(other) <= 1
            &&& before.dynamic_host_refs.count(other) == Some(1u128)
            &&& !has_text(before.pinned_host_dylibs@, other)
        },
        lists_path(after.loaded_host_dylibs@, other) ==> lists_path(
            before.loaded_host_dylibs@,
            other,
        ),
{
    if let OpenLibrary::Host(path) = before.library_handles.library(handle).unwrap() {
        lemma_without_path(before.loaded_host_dylibs@, path@);
        assert(before.library_handles.users(other) >= 0);
    }
}

/// A library of the host is visible for as long as a handle that was opened
/// from it is open, or an image is linked to it.
pub proof fn libraries_in_use_are_visible(dyld: Dyld, handle: u32, path: Seq<char>)
    requires
        dyld.wf(),
        (dyld.library_handles.library(handle) matches Some(library) && library.is_host(path))
            || has_text(dyld.pinned_host_dylibs@, path),
    ensures
        lists_path(dyld.loaded_host_dylibs@, path),
{
    dyld.library_handles.users_bounded(path);
}

/// Opening a library of the host and closing the handle leaves it as visible
/// as the handles that were open before and the images want it: it stays if it
/// was open already or an image is linked to it, and goes otherwise.
pub proof fn open_then_close(
    before: Dyld,
    opened: Dyld,
    closed: Dyld,
    bins: Seq<MachO>,
    path: Seq<char>,
    handle: u32,
)
    requires
        before.wf(),
        opened.is_opened(before, bins, path, handle),
        closed.is_closed(opened, handle),
        first_image(before.catalogue@, bins, path, 0) is None,
        first_host(before.catalogue@, path, 0) is Some,
        before.dynamic_host_refs.count(
            before.catalogue@[first_host(before.catalogue@, path, 0).unwrap()].path@,
        ) != Some(u128::MAX),
    ensures
        ({
            let host = before.catalogue@[first_host(before.catalogue@, path, 0).unwrap()];
            let count = before.dynamic_host_refs.count(host.path@);
            let pinned = has_text(before.pinned_host_dylibs@, host.path@);
            &&& lists_path(closed.loaded_host_dylibs@, host.path@) <==> pinned || (count is Some
                && count.unwrap() > 0)
            &&& closed.dynamic_host_refs.count(host.path@) == Some(
                if count is Some {
                    count.unwrap()
                } else {
                    0
                },
            )
            &&& closed.library_handles.library(handle) is None
        }),
{
    let host = before.catalogue@[first_host(before.catalogue@, path, 0).unwrap()];
    lemma_with_host(before.loaded_host_dylibs@, host);
    lemma_without_path(opened.loaded_host_dylibs@, host.path@);
}

/// An image that goes by the name of a library of the host doesn't count for
/// it: opening and closing the image leaves the libraries of the host alone.
pub proof fn images_leave_the_host_alone(
    before: Dyld,
    opened: Dyld,
    closed: Dyld,
    bins: Seq<MachO>,
    path: Seq<char>,
    handle: u32,
)
    requires
        opened.is_opened(before, bins, path, handle),
        closed.is_closed(opened, handle),
        first_image(before.catalogue@, bins, path, 0) is Some,
    ensures
        closed.loaded_host_dylibs@ == before.loaded_host_dylibs@,
        closed.dynamic_host_refs == before.dynamic_host_refs,
        closed.library_handles.library(handle) is None,
{
}

/// An import with an ordinal that names no dependency is not found anywhere:
/// there is no fallback into other libraries, unless the main executable asks
/// for flat lookup.
pub proof fn bad_ordinals_see_nothing(images: Images, importer: int, import: ImportInfo)
    requires
        0 <= importer < images.bins.len(),
        !images.bins[0].force_flat_namespace,
        match import.ordinal {
            LibraryOrdinal::Invalid => true,
            LibraryOrdinal::Dependency(n) => n == 0 || n
                > images.bins[importer].dynamic_libraries@.len(),
            _ => false,
        },
    ensures
        scope_of_import(images, importer, import) == ScopeView::empty(),
{
}

/// A private symbol of an image is not visible through a scope of another one.
pub proof fn private_symbols_stay_private(
    bins: Seq<MachO>,
    guests: Seq<int>,
    symbol: Seq<char>,
    from: int,
)
    requires
        0 <= from,
        forall|k: int|
            0 <= k < guests.len() ==> bins[#[trigger] guests[k]].private_symbols.has(symbol)
                || bins[guests[k]].exported_symbols.address(symbol) is None,
    ensures
        first_address(bins, guests, None, symbol, from) is None,
    decreases guests.len() - from,
{
    if from < guests.len() {
        private_symbols_stay_private(bins, guests, symbol, from + 1);
    }
}

/// A private symbol of an image is visible to the image itself.
pub proof fn own_private_symbols_are_visible(
    images: Images,
    importer: int,
    import: ImportInfo,
    symbol: Seq<char>,
)
    requires
        0 <= importer < images.bins.len(),
        effective_ordinal(images.bins, import) == LibraryOrdinal::SelfImage,
        images.bins[importer].exported_symbols.address(symbol) is Some,
    ensures
        first_address(
            images.bins,
            scope_of_import(images, importer, import).guests,
            Some(importer),
            symbol,
            0,
        ) == images.bins[importer].exported_symbols.address(symbol),
{
    reexports_are_followed(images, importer);
}

/// A dependency that only a library of the host provides is looked up in that
/// library alone, as far as it is loaded.
pub proof fn host_dependency_sees_one_library(
    images: Images,
    importer: int,
    n: usize,
    weak: bool,
)
    requires
        0 <= importer < images.bins.len(),
        !images.bins[0].force_flat_namespace,
        1 <= n <= images.bins[importer].dynamic_libraries@.len(),
        first_image(
            images.catalogue,
            images.bins,
            images.bins[importer].dynamic_libraries@[n - 1]@,
            0,
        ) is None,
    ensures
        ({
            let path = images.bins[importer].dynamic_libraries@[n - 1]@;
            let import = ImportInfo { ordinal: LibraryOrdinal::Dependency(n), weak };
            scope_of_import(images, importer, import) == (ScopeView {
                guests: Seq::empty(),
                hosts: match first_host(images.loaded, path, 0) {
                    Some(h) => seq![images.loaded[h]],
                    None => Seq::empty(),
                },
            })
        }),
{
    let path = images.bins[importer].dynamic_libraries@[n - 1]@;
    let import = ImportInfo { ordinal: LibraryOrdinal::Dependency(n), weak };
    assert(texts(images.bins[importer].dynamic_libraries@)[n - 1] == path);
    if let Some(h) = first_host(images.loaded, path, 0) {
        assert(with_host(Seq::empty(), images.loaded[h]) =~= seq![images.loaded[h]]);
    }
}

/// Whether a scope has all that its images pass off as their own: each path
/// that one of them reexports leads to an image or a library in the scope, if
/// it leads anywhere.
pub open spec fn is_complete(scope: ScopeView, images: Images, guest: int) -> bool {
    let paths = texts(images.bins[guest].reexported_libraries@);
    forall|j: int| 0 <= j < paths.len() ==> #[trigger] covers(scope, images, paths[j])
}

/// Whether what a path means is in a scope.
pub open spec fn covers(scope: ScopeView, images: Images, path: Seq<char>) -> bool {
    match first_image(images.catalogue, images.bins, path, 0) {
        Some(image) => scope.guests.contains(image),
        None => match first_host(images.loaded, path, 0) {
            Some(host) => lists_path(scope.hosts, images.loaded[host].path@),
            None => true,
        },
    }
}

/// Whether one scope has all that another one has, with the same images first.
pub open spec fn extends(large: ScopeView, small: ScopeView) -> bool {
    &&& small.guests.len() <= large.guests.len()
    &&& large.guests.take(small.guests.len() as int) == small.guests
    &&& forall|path: Seq<char>| #[trigger]
        lists_path(small.hosts, path) ==> lists_path(large.hosts, path)
}

proof fn lemma_extends_trans(a: ScopeView, b: ScopeView, c: ScopeView)
    requires
        extends(b, a),
        extends(c, b),
    ensures
        extends(c, a),
{
    assert(c.guests.take(a.guests.len() as int) =~= b.guests.take(a.guests.len() as int));
}

proof fn lemma_extends_covers(large: ScopeView, small: ScopeView, images: Images, path: Seq<char>)
    requires
        extends(large, small),
        covers(small, images, path),
    ensures
        covers(large, images, path),
{
    if let Some(image) = first_image(images.catalogue, images.bins, path, 0) {
        let k = choose|k: int| 0 <= k < small.guests.len() && small.guests[k] == image;
        assert(large.guests.take(small.guests.len() as int)[k] == image);
        assert(large.guests[k] == image);
    }
}

/// Images in a scope: valid, each once.
pub open spec fn valid_guests(scope: ScopeView, images: Images) -> bool {
    &&& scope.guests.no_duplicates()
    &&& forall|k: int|
        0 <= k < scope.guests.len() ==> 0 <= #[trigger] scope.guests[k] < images.bins.len()
}

proof fn lemma_first_image_valid(
    catalogue: Seq<&'static HostDylib>,
    bins: Seq<MachO>,
    path: Seq<char>,
    from: int,
)
    requires
        0 <= from,
    ensures
        first_image(catalogue, bins, path, from) matches Some(i) ==> from <= i < bins.len(),
    decreases bins.len() - from,
{
    if from < bins.len() {
        lemma_first_image_valid(catalogue, bins, path, from + 1);
    }
}

/// What a visit does: the new scope extends the old one, and every image that
/// is new in it has all that it passes off as its own.
pub open spec fn is_visit(after: ScopeView, before: ScopeView, images: Images) -> bool {
    &&& extends(after, before)
    &&& valid_guests(after, images)
    &&& forall|k: int|
        before.guests.len() <= k < after.guests.len() ==> is_complete(
            after,
            images,
            #[trigger] after.guests[k],
        )
}

proof fn lemma_visit_image(scope: ScopeView, images: Images, image: int, fuel: nat)
    requires
        valid_guests(scope, images),
        0 <= image < images.bins.len(),
        fuel >= images.bins.len() - scope.guests.len(),
    ensures
        is_visit(scope.with_image(images, image, fuel), scope, images),
        scope.with_image(images, image, fuel).guests.contains(image),
    decreases fuel, 0nat,
{
    assert(scope.guests.take(scope.guests.len() as int) =~= scope.guests);
    lemma_indices_fit(scope.guests, images.bins.len() as int);
    if !scope.guests.contains(image) {
        let pushed = ScopeView { guests: scope.guests.push(image), ..scope };
        assert(valid_guests(pushed, images));
        lemma_indices_fit(pushed.guests, images.bins.len() as int);
        assert(fuel > 0);
        let paths = texts(images.bins[image].reexported_libraries@);
        lemma_visit_paths(pushed, images, paths, 0, (fuel - 1) as nat);
        let after = pushed.with_paths(images, paths, 0, (fuel - 1) as nat);
        let n = scope.guests.len() as int;
        assert(after.guests.take(n) =~= after.guests.take(n + 1).take(n));
        assert(pushed.guests.take(n) =~= scope.guests);
        assert(after.guests.take(n + 1)[n] == image);
        assert(after.guests[n] == image);
        assert(is_complete(after, images, image));
        assert forall|k: int| n <= k < after.guests.len() implies is_complete(
            after,
            images,
            #[trigger] after.guests[k],
        ) by {
            if k == n {
            }
        }
    }
}

pub proof fn lemma_visit_paths(
    scope: ScopeView,
    images: Images,
    paths: Seq<Seq<char>>,
    from: int,
    fuel: nat,
)
    requires
        valid_guests(scope, images),
        0 <= from <= paths.len(),
        fuel >= images.bins.len() - scope.guests.len(),
    ensures
        is_visit(scope.with_paths(images, paths, from, fuel), scope, images),
        forall|j: int|
            from <= j < paths.len() ==> #[trigger] covers(
                scope.with_paths(images, paths, from, fuel),
                images,
                paths[j],
            ),
    decreases fuel, 2 + paths.len() - from,
{
    assert(scope.guests.take(scope.guests.len() as int) =~= scope.guests);
    if from < paths.len() {
        let next = scope.with_path(images, paths[from], fuel);
        lemma_visit_path(scope, images, paths[from], fuel);
        lemma_visit_paths(next, images, paths, from + 1, fuel);
        let after = next.with_paths(images, paths, from + 1, fuel);
        lemma_extends_trans(scope, next, after);
        lemma_extends_covers(after, next, images, paths[from]);
        assert forall|k: int|
            scope.guests.len() <= k < after.guests.len() implies is_complete(
            after,
            images,
            #[trigger] after.guests[k],
        ) by {
            if k < next.guests.len() {
                assert(after.guests.take(next.guests.len() as int)[k] == next.guests[k]);
                let own = texts(images.bins[next.guests[k]].reexported_libraries@);
                assert(is_complete(next, images, next.guests[k]));
                assert forall|j: int| 0 <= j < own.len() implies #[trigger] covers(
                    after,
                    images,
                    own[j],
                ) by {
                    assert(covers(next, images, own[j]));
                    lemma_extends_covers(after, next, images, own[j]);
                }
            }
        }
    }
}

pub proof fn lemma_visit_path(scope: ScopeView, images: Images, path: Seq<char>, fuel: nat)
    requires
        valid_guests(scope, images),
        fuel >= images.bins.len() - scope.guests.len(),
    ensures
        is_visit(scope.with_path(images, path, fuel), scope, images),
        covers(scope.with_path(images, path, fuel), images, path),
    decreases fuel, 1nat,
{
    assert(scope.guests.take(scope.guests.len() as int) =~= scope.guests);
    lemma_first_image_valid(images.catalogue, images.bins, path, 0);
    match first_image(images.catalogue, images.bins, path, 0) {
        Some(image) => {
            lemma_visit_image(scope, images, image, fuel);
        },
        None => {
            if let Some(h) = first_host(images.loaded, path, 0) {
                let host = images.loaded[h];
                let longer = with_host(scope.hosts, host);
                if !lists_path(scope.hosts, host.path@) {
                    assert(longer[scope.hosts.len() as int].path@ == host.path@);
                }
                assert forall|other: Seq<char>| #[trigger]
                    lists_path(scope.hosts, other) implies lists_path(longer, other) by {
                    let i = choose|i: int|
                        0 <= i < scope.hosts.len() && (#[trigger] scope.hosts[i]).path@ == other;
                    assert(longer[i].path@ == other);
                }
            }
        },
    }
}

/// Reexports are followed to the end, whatever cycles there are: the scope of
/// an image has the image first, each image once, and all that any of its
/// images passes off as its own.
pub proof fn reexports_are_followed(images: Images, image: int)
    requires
        0 <= image < images.bins.len(),
    ensures
        ({
            let scope = ScopeView::empty().with_image(images, image, images.bins.len());
            &&& scope.guests.len() > 0
            &&& scope.guests[0] == image
            &&& valid_guests(scope, images)
            &&& forall|k: int|
                0 <= k < scope.guests.len() ==> is_complete(
                    scope,
                    images,
                    #[trigger] scope.guests[k],
                )
        }),
{
    let empty = ScopeView::empty();
    lemma_visit_image(empty, images, image, images.bins.len());
    let pushed = ScopeView { guests: empty.guests.push(image), ..empty };
    let paths = texts(images.bins[image].reexported_libraries@);
    let fuel = (images.bins.len() - 1) as nat;
    assert(valid_guests(pushed, images));
    lemma_visit_paths(pushed, images, paths, 0, fuel);
    let scope = pushed.with_paths(images, paths, 0, fuel);
    assert(scope.guests.take(1)[0] == pushed.guests[0]);
}

} // verus!
