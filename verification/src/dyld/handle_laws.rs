//! What handles of opened libraries stand for.
use vstd::prelude::*;

use crate::dyld::handles::OpenLibrary;
use crate::dyld::lookup_laws::{
    goes_by, has_no_host, has_no_image, is_among, is_host_for, is_image_for, is_listed,
    lemma_host_for, lemma_image_for, needs, own_name, stands_for,
};
use crate::dyld::scope_laws::{
    has_reasons, is_flat, is_scope_of_image, is_scope_of_path, lemma_scope_of_path,
    lemma_self_reasons, loaded_images,
};
use crate::dyld::symbol_laws::is_visible;
use crate::dyld::symbol_lookup::{
    first_address, first_host, first_image, has_text, image_at, ints, lemma_with_host,
    lemma_without_path, lists_path, Images, LookupScope, ScopeView, SymbolTarget, RTLD_DEFAULT,
    RTLD_MAIN_ONLY, RTLD_NEXT, RTLD_SELF,
};
use crate::dyld::{Dyld, HostDylib};
use crate::libc::dlfcn::{dlclose, dlopen, dlsym};
use crate::mach_o::{ImportInfo, LibraryOrdinal, MachO};
use crate::mem::{ConstPtr, Mem, MutVoidPtr};

verus! {

/// Whether an opened library is the one that a path means: an image under its
/// own name, or else a library of the host under its own path.
pub open spec fn is_opened_by(
    catalogue: Seq<&'static HostDylib>,
    bins: Seq<MachO>,
    path: Seq<char>,
    library: OpenLibrary,
) -> bool {
    &&& forall|i: int| #[trigger]
        is_image_for(catalogue, bins, path, i) ==> (library matches OpenLibrary::Image(name)
            && name@ == own_name(bins[i]))
    &&& has_no_image(catalogue, bins, path) ==> forall|h: int| #[trigger]
        is_host_for(catalogue, path, h) ==> library == OpenLibrary::Host(catalogue[h].path)
}

/// Opening succeeds exactly if the path means an image or a library of the
/// host. The handle is then a new block of memory, and stands for what the path
/// means. A library of the host that is opened so is visible from then on, and
/// counted once more. All other handles, counts and visible libraries stay.
pub proof fn opening_gives_a_handle_for_the_path(
    dyld: &mut Dyld,
    path: &str,
    bins: &[MachO],
    mem: &mut Mem,
    handle: Option<MutVoidPtr>,
)
    requires
        old(dyld).wf(),
        old(mem).wf(),
        call_ensures(Dyld::open_library, (dyld, path, bins, mem), handle),
    ensures
        ({
            let catalogue = old(dyld).catalogue@;
            let before = *old(dyld);
            let after = *final(dyld);
            &&& handle is None <==> has_no_image(catalogue, bins@, path@) && has_no_host(
                catalogue,
                path@,
            )
            &&& handle is None ==> after == before && *final(mem) == *old(mem)
            &&& handle matches Some(handle) ==> {
                let bits = handle.bits();
                &&& bits != 0
                &&& !old(mem).blocks().contains_key(bits)
                &&& final(mem).blocks().contains_key(bits)
                &&& forall|block: u32| #[trigger]
                    old(mem).blocks().contains_key(block) ==> final(mem).blocks().contains_key(
                        block,
                    )
                &&& after.library_handles.library(bits) is Some
                &&& is_opened_by(
                    catalogue,
                    bins@,
                    path@,
                    after.library_handles.library(bits).unwrap(),
                )
                &&& forall|other: u32|
                    other != bits ==> #[trigger] after.library_handles.library(other)
                        == before.library_handles.library(other)
                &&& forall|own: Seq<char>| #[trigger]
                    is_listed(after.loaded_host_dylibs@, own) <==> is_listed(
                        before.loaded_host_dylibs@,
                        own,
                    ) || after.library_handles.library(bits).unwrap().is_host(own)
                &&& forall|own: Seq<char>|
                    !after.library_handles.library(bits).unwrap().is_host(own)
                        ==> #[trigger] after.dynamic_host_refs.count(own)
                        == before.dynamic_host_refs.count(own)
                &&& after.library_handles.library(bits) matches Some(OpenLibrary::Host(own)) ==> {
                    let count = before.dynamic_host_refs.count(own@);
                    after.dynamic_host_refs.count(own@) == match count {
                        None => Some(1u128),
                        Some(c) if c < u128::MAX => Some((c + 1) as u128),
                        Some(c) => Some(c),
                    }
                }
                &&& after.pinned_host_dylibs == before.pinned_host_dylibs
                &&& after.catalogue == before.catalogue
            }
        }),
{
    let catalogue = old(dyld).catalogue@;
    lemma_image_for(catalogue, bins@, path@);
    lemma_host_for(catalogue, path@);
    if let Some(handle) = handle {
        let after = final(dyld).loaded_host_dylibs@;
        let before = old(dyld).loaded_host_dylibs@;
        if first_image(catalogue, bins@, path@, 0) is None {
            let host = catalogue[first_host(catalogue, path@, 0).unwrap()];
            lemma_with_host(before, host);
        }
        assert forall|own: Seq<char>| #[trigger] is_listed(after, own) <==> is_listed(before, own)
            || final(dyld).library_handles.library(handle.bits()).unwrap().is_host(own) by {
            assert(is_listed(after, own) == lists_path(after, own));
            assert(is_listed(before, own) == lists_path(before, own));
        }
    }
}

/// A handle that was opened for an image stands for that image: a lookup by the
/// handle sees the image first, and with it all that it passes off as its own.
/// That holds as long as no earlier image can be meant by the image's own name.
pub proof fn handle_of_image_sees_the_image(
    dyld: &mut Dyld,
    path: &str,
    bins: &[MachO],
    mem: &mut Mem,
    handle: MutVoidPtr,
    i: int,
    caller: u32,
    scope: Option<LookupScope<'_>>,
)
    requires
        old(dyld).wf(),
        old(mem).wf(),
        call_ensures(Dyld::open_library, (dyld, path, bins, mem), Some(handle)),
        is_image_for(old(dyld).catalogue@, bins@, path@, i),
        forall|k: int|
            0 <= k < i ==> !stands_for(
                old(dyld).catalogue@,
                #[trigger] bins@[k],
                own_name(bins@[i]),
            ),
        call_ensures(Dyld::handle_scope, (final(dyld), handle, bins, caller), scope),
    ensures
        scope is Some,
        ({
            let scope = scope.unwrap();
            let images = loaded_images(*final(dyld), bins@);
            &&& scope.guests@.len() > 0
            &&& scope.guests@[0] == i
            &&& scope.bins@ == bins@
            &&& scope.local_image is None
            &&& is_scope_of_image(images, ints(scope.guests@), scope.hosts@, i)
        }),
{
    let catalogue = old(dyld).catalogue@;
    let images = loaded_images(*final(dyld), bins@);
    opening_gives_a_handle_for_the_path(dyld, path, bins, mem, Some(handle));
    lemma_not_pseudo(*old(mem), *final(mem), handle.bits());
    let name = own_name(bins@[i]);
    assert(stands_for(catalogue, bins@[i], name));
    assert(is_image_for(catalogue, bins@, name, i));
    lemma_scope_of_path(images, name);
    assert(final(dyld).library_handles.path(handle.bits()) == Some(name));
    let scope = scope.unwrap();
    assert(ints(scope.guests@)[0] == scope.guests@[0] as int);
}

/// A block of memory is none of the pseudo-handles.
proof fn lemma_not_pseudo(before: Mem, after: Mem, handle: u32)
    requires
        before.wf(),
        after.is_allocation(before, handle, 1),
    ensures
        handle != 0,
        handle != RTLD_DEFAULT,
        handle != RTLD_MAIN_ONLY,
        handle != RTLD_NEXT,
        handle != RTLD_SELF,
{
    before.lemma_fits_mapped(handle as int, 1);
    assert(handle % 16 == 0);
}

/// A library that was opened by a path that means an image is looked up in that
/// image: an exported symbol that is not private is found at the address that
/// the image has for it.
pub proof fn opened_image_gives_its_symbols(
    dyld: &mut Dyld,
    path: &str,
    bins: &[MachO],
    mem: &mut Mem,
    handle: MutVoidPtr,
    i: int,
    dyld_later: &mut Dyld,
    mem_later: &mut Mem,
    symbol: &str,
    addr: u32,
    caller: u32,
    target: Option<SymbolTarget>,
)
    requires
        old(dyld).wf(),
        old(mem).wf(),
        call_ensures(Dyld::open_library, (dyld, path, bins, mem), Some(handle)),
        is_image_for(old(dyld).catalogue@, bins@, path@, i),
        forall|k: int|
            0 <= k < i ==> !stands_for(
                old(dyld).catalogue@,
                #[trigger] bins@[k],
                own_name(bins@[i]),
            ),
        is_visible(bins@[i], false, symbol@, addr),
        *old(dyld_later) == *final(dyld),
        call_ensures(
            Dyld::dynamic_symbol,
            (dyld_later, mem_later, bins, handle, symbol, caller),
            target,
        ),
    ensures
        target == Some(SymbolTarget::Guest { addr }),
        *final(dyld_later) == *old(dyld_later),
        *final(mem_later) == *old(mem_later),
{
    let catalogue = old(dyld).catalogue@;
    let images = loaded_images(*final(dyld), bins@);
    opening_gives_a_handle_for_the_path(dyld, path, bins, mem, Some(handle));
    lemma_not_pseudo(*old(mem), *final(mem), handle.bits());
    let name = own_name(bins@[i]);
    assert(stands_for(catalogue, bins@[i], name));
    assert(is_image_for(catalogue, bins@, name, i));
    lemma_scope_of_path(images, name);
    assert(final(dyld).library_handles.path(handle.bits()) == Some(name));
    let view = ScopeView::empty().with_path(images, name, bins@.len());
    assert(is_scope_of_image(images, view.guests, view.hosts, i));
    assert(view.guests[0] == i);
    assert(first_address(bins@, view.guests, None, symbol@, 0) == Some(addr));
}

/// A handle that was opened for a library of the host stands for the first
/// library that is visible under its path, as long as the path of the library
/// means no image.
pub proof fn handle_of_host_sees_the_host(
    dyld: &mut Dyld,
    path: &str,
    bins: &[MachO],
    mem: &mut Mem,
    handle: MutVoidPtr,
    h: int,
    caller: u32,
    scope: Option<LookupScope<'_>>,
)
    requires
        old(dyld).wf(),
        old(mem).wf(),
        call_ensures(Dyld::open_library, (dyld, path, bins, mem), Some(handle)),
        has_no_image(old(dyld).catalogue@, bins@, path@),
        is_host_for(old(dyld).catalogue@, path@, h),
        has_no_image(old(dyld).catalogue@, bins@, old(dyld).catalogue@[h].path@),
        call_ensures(Dyld::handle_scope, (final(dyld), handle, bins, caller), scope),
    ensures
        scope is Some,
        ({
            let scope = scope.unwrap();
            let own = old(dyld).catalogue@[h].path@;
            &&& scope.guests@.len() == 0
            &&& scope.hosts@.len() == 1
            &&& goes_by(*scope.hosts@[0], own)
            &&& exists|v: int| #[trigger]
                is_host_for(final(dyld).loaded_host_dylibs@, own, v) && scope.hosts@[0]
                    == final(dyld).loaded_host_dylibs@[v]
        }),
{
    let catalogue = old(dyld).catalogue@;
    let loaded = final(dyld).loaded_host_dylibs@;
    let images = loaded_images(*final(dyld), bins@);
    let own = catalogue[h].path@;
    opening_gives_a_handle_for_the_path(dyld, path, bins, mem, Some(handle));
    lemma_not_pseudo(*old(mem), *final(mem), handle.bits());
    assert(final(dyld).library_handles.library(handle.bits()).unwrap().is_host(own));
    assert(is_listed(loaded, own));
    let at = choose|at: int| 0 <= at < loaded.len() && (#[trigger] loaded[at]).path@ == own;
    assert(goes_by(*loaded[at], own));
    lemma_host_for(loaded, own);
    lemma_scope_of_path(images, own);
    assert(final(dyld).library_handles.path(handle.bits()) == Some(own));
    let v = first_host(loaded, own, 0).unwrap();
    assert(is_host_for(loaded, own, v));
    let scope = scope.unwrap();
    assert(scope.hosts@ =~= seq![loaded[v]]);
    assert(ints(scope.guests@).len() == 0);
}

/// The image that code at an address belongs to: the first one with the address
/// between its base and its end. The lowest bit of the address only says what
/// kind of code it is.
pub open spec fn is_image_at(bins: Seq<MachO>, caller: u32, i: int) -> bool {
    let addr = caller - caller % 2;
    &&& 0 <= i < bins.len()
    &&& bins[i].text_base <= addr < bins[i].last_segment_end
    &&& forall|k: int|
        0 <= k < i ==> !((#[trigger] bins[k]).text_base <= addr < bins[k].last_segment_end)
}

proof fn lemma_image_at(bins: Seq<MachO>, caller: u32, from: int)
    requires
        0 <= from,
        forall|k: int|
            0 <= k < from && k < bins.len() ==> !((#[trigger] bins[k]).text_base <= caller - caller
                % 2 < bins[k].last_segment_end),
    ensures
        match image_at(bins, (caller - caller % 2) as u32, from) {
            Some(i) => is_image_at(bins, caller, i),
            None => forall|k: int|
                0 <= k < bins.len() ==> !((#[trigger] bins[k]).text_base <= caller - caller % 2
                    < bins[k].last_segment_end),
        },
    decreases bins.len() - from,
{
    let addr = (caller - caller % 2) as u32;
    if from < bins.len() && !(bins[from].text_base <= addr < bins[from].last_segment_end) {
        lemma_image_at(bins, caller, from + 1);
    }
}

/// Null and the default handle stand for everything that is loaded, another
/// pseudo-handle for the main executable alone.
pub proof fn default_handles_see_everything(
    dyld: &Dyld,
    handle: MutVoidPtr,
    bins: &[MachO],
    caller: u32,
    scope: Option<LookupScope<'_>>,
)
    requires
        call_ensures(Dyld::handle_scope, (dyld, handle, bins, caller), scope),
    ensures
        handle.bits() == 0 || handle.bits() == 0xffff_fffe ==> (scope matches Some(scope)
            && is_flat(loaded_images(*dyld, bins@), ints(scope.guests@), scope.hosts@)),
        handle.bits() == 0xffff_fffb ==> (scope matches Some(scope) && scope.hosts@.len() == 0
            && scope.guests@.len() == (if bins@.len() > 0 {
            1int
        } else {
            0
        }) && (bins@.len() > 0 ==> scope.guests@[0] == 0)),
{
    let scope = scope.unwrap();
    let guests = ints(scope.guests@);
    if handle.bits() == 0xffff_fffb {
        assert(guests.len() == scope.guests@.len());
        if bins@.len() > 0 {
            assert(scope.guests@[0] as int == guests[0]);
        }
    }
}

/// One pseudo-handle stands for what comes after the image that asks, and one
/// for that image with its own dependencies. They stand for nothing where no
/// image asks.
pub proof fn relative_handles_depend_on_the_caller(
    dyld: &Dyld,
    handle: MutVoidPtr,
    bins: &[MachO],
    caller: u32,
    scope: Option<LookupScope<'_>>,
    i: int,
)
    requires
        call_ensures(Dyld::handle_scope, (dyld, handle, bins, caller), scope),
        handle.bits() == 0xffff_ffff || handle.bits() == 0xffff_fffd,
    ensures
        scope is None <==> forall|k: int|
            0 <= k < bins@.len() ==> !((#[trigger] bins@[k]).text_base <= caller - caller % 2
                < bins@[k].last_segment_end),
        is_image_at(bins@, caller, i) ==> scope is Some,
        is_image_at(bins@, caller, i) && handle.bits() == 0xffff_ffff ==> {
            let scope = scope.unwrap();
            &&& scope.hosts@ == dyld.loaded_host_dylibs@
            &&& scope.guests@.len() == bins@.len() - i - 1
            &&& forall|k: int|
                0 <= k < scope.guests@.len() ==> #[trigger] scope.guests@[k] == i + 1 + k
        },
        is_image_at(bins@, caller, i) && handle.bits() == 0xffff_fffd ==> {
            let scope = scope.unwrap();
            &&& scope.guests@.len() > 0
            &&& scope.guests@[0] == i
            &&& sees_dependencies(loaded_images(*dyld, bins@), scope, i)
        },
{
    let images = loaded_images(*dyld, bins@);
    lemma_image_at(bins@, caller, 0);
    let found = image_at(bins@, (caller - caller % 2) as u32, 0);
    if is_image_at(bins@, caller, i) {
        assert(found is Some);
        assert(is_image_at(bins@, caller, found.unwrap()));
        assert(found == Some(i));
        let scope = scope.unwrap();
        let guests = ints(scope.guests@);
        assert(guests.len() == scope.guests@.len());
        if handle.bits() == 0xffff_ffff {
            assert forall|k: int| 0 <= k < scope.guests@.len() implies #[trigger] scope.guests@[k]
                == i + 1 + k by {
                assert(scope.guests@[k] as int == guests[k]);
            }
        } else {
            lemma_self_scope(images, i);
            lemma_self_reasons(images, i);
            assert(scope.guests@[0] as int == guests[0]);
            let own = images.bins[i].dynamic_libraries@;
            let paths = crate::dyld::symbol_lookup::texts(own);
            assert(paths =~= Seq::new(own.len(), |p: int| own[p]@));
            assert forall|p: int, k: int|
                0 <= p < own.len() && #[trigger] is_image_for(
                    images.catalogue,
                    images.bins,
                    own[p]@,
                    k,
                ) implies guests.contains(k) by {
                assert(paths[p] == own[p]@);
                assert(is_image_for(images.catalogue, images.bins, paths[p], k));
            }
            assert forall|p: int, h: int|
                0 <= p < own.len() && has_no_image(images.catalogue, images.bins, own[p]@)
                    && #[trigger] is_host_for(images.loaded, own[p]@, h) implies is_listed(
                scope.hosts@,
                images.loaded[h].path@,
            ) by {
                assert(paths[p] == own[p]@);
                assert(is_host_for(images.loaded, paths[p], h));
            }
        }
    }
}

/// Any other handle has to be open, and then stands for what the name of its
/// library means.
pub proof fn other_handles_have_to_be_open(
    dyld: &Dyld,
    handle: MutVoidPtr,
    bins: &[MachO],
    caller: u32,
    scope: Option<LookupScope<'_>>,
)
    requires
        call_ensures(Dyld::handle_scope, (dyld, handle, bins, caller), scope),
        handle.bits() != 0,
        handle.bits() < 0xffff_fff0,
    ensures
        match dyld.library_handles.library(handle.bits()) {
            None => scope is None,
            Some(library) => scope matches Some(scope) && is_scope_of_path(
                loaded_images(*dyld, bins@),
                ints(scope.guests@),
                scope.hosts@,
                library.name(),
            ),
        },
{
    if let Some(library) = dyld.library_handles.library(handle.bits()) {
        lemma_scope_of_path(loaded_images(*dyld, bins@), library.name());
    }
}

/// Whether a scope has what each of an image's own dependencies means, and
/// nothing without a reason.
pub open spec fn sees_dependencies(images: Images, scope: LookupScope<'_>, image: int) -> bool {
    let paths = images.bins[image].dynamic_libraries@;
    &&& has_reasons(
        images,
        ints(scope.guests@),
        scope.hosts@,
        Some(image),
        Seq::new(paths.len(), |p: int| paths[p]@),
    )
    &&& forall|p: int, i: int|
        0 <= p < paths.len() && #[trigger] is_image_for(
            images.catalogue,
            images.bins,
            paths[p]@,
            i,
        ) ==> ints(scope.guests@).contains(i)
    &&& forall|p: int, h: int|
        0 <= p < paths.len() && has_no_image(images.catalogue, images.bins, paths[p]@)
            && #[trigger] is_host_for(images.loaded, paths[p]@, h) ==> is_listed(
            scope.hosts@,
            images.loaded[h].path@,
        )
}

proof fn lemma_self_scope(images: Images, image: int)
    requires
        0 <= image < images.bins.len(),
    ensures
        ({
            let paths = crate::dyld::symbol_lookup::texts(
                images.bins[image].dynamic_libraries@,
            );
            let own = ScopeView::empty().with_image(images, image, images.bins.len());
            let scope = own.with_paths(images, paths, 0, images.bins.len());
            &&& scope.guests.len() > 0
            &&& scope.guests[0] == image
            &&& forall|p: int, i: int|
                0 <= p < paths.len() && #[trigger] is_image_for(
                    images.catalogue,
                    images.bins,
                    paths[p],
                    i,
                ) ==> scope.guests.contains(i)
            &&& forall|p: int, h: int|
                0 <= p < paths.len() && has_no_image(images.catalogue, images.bins, paths[p])
                    && #[trigger] is_host_for(images.loaded, paths[p], h) ==> is_listed(
                    scope.hosts,
                    images.loaded[h].path@,
                )
        }),
{
    let paths = crate::dyld::symbol_lookup::texts(images.bins[image].dynamic_libraries@);
    let fuel = images.bins.len();
    let own = ScopeView::empty().with_image(images, image, fuel);
    let scope = own.with_paths(images, paths, 0, fuel);
    crate::dyld::laws::reexports_are_followed(images, image);
    crate::dyld::laws::lemma_visit_paths(own, images, paths, 0, fuel);
    assert(scope.guests.take(own.guests.len() as int)[0] == own.guests[0]);
    assert forall|p: int, i: int|
        0 <= p < paths.len() && #[trigger] is_image_for(
            images.catalogue,
            images.bins,
            paths[p],
            i,
        ) implies scope.guests.contains(i) by {
        lemma_image_for(images.catalogue, images.bins, paths[p]);
        assert(crate::dyld::laws::covers(scope, images, paths[p]));
    }
    assert forall|p: int, h: int|
        0 <= p < paths.len() && has_no_image(images.catalogue, images.bins, paths[p])
            && #[trigger] is_host_for(images.loaded, paths[p], h) implies is_listed(
        scope.hosts,
        images.loaded[h].path@,
    ) by {
        lemma_image_for(images.catalogue, images.bins, paths[p]);
        lemma_host_for(images.loaded, paths[p]);
        assert(crate::dyld::laws::covers(scope, images, paths[p]));
        assert(lists_path(scope.hosts, images.loaded[h].path@));
    }
}

/// A library of the host that an image depends on is what the image sees for
/// that dependency, once the images are registered: exactly the first library
/// that is visible under the path, and there is one.
pub proof fn registered_dependencies_are_seen(
    dyld: &mut Dyld,
    bins: &[MachO],
    importer: usize,
    n: usize,
    h: int,
    weak: bool,
    scope: LookupScope<'_>,
)
    requires
        importer < bins@.len(),
        !bins@[0].force_flat_namespace,
        n >= 1,
        needs(old(dyld).catalogue@, bins@, importer as int, n - 1, h),
        call_ensures(Dyld::register_loaded_images, (dyld, bins), ()),
        call_ensures(
            Dyld::lookup_scope,
            (
                final(dyld),
                importer,
                bins,
                ImportInfo { ordinal: LibraryOrdinal::Dependency(n), weak },
            ),
            scope,
        ),
        old(dyld).catalogue@[h].path@ == bins@[importer as int].dynamic_libraries@[n - 1]@,
    ensures
        scope.guests@.len() == 0,
        scope.hosts@.len() == 1,
        goes_by(*scope.hosts@[0], bins@[importer as int].dynamic_libraries@[n - 1]@),
{
    let path = bins@[importer as int].dynamic_libraries@[n - 1]@;
    let loaded = final(dyld).loaded_host_dylibs@;
    crate::dyld::lookup_laws::dependencies_become_visible(dyld, bins);
    assert(is_listed(loaded, path));
    let at = choose|at: int| 0 <= at < loaded.len() && (#[trigger] loaded[at]).path@ == path;
    assert(goes_by(*loaded[at], path));
    lemma_host_for(loaded, path);
    crate::dyld::scope_laws::imports_are_looked_up_by_ordinal(
        final(dyld),
        importer,
        bins,
        ImportInfo { ordinal: LibraryOrdinal::Dependency(n), weak },
        scope,
    );
    let v = first_host(loaded, path, 0).unwrap();
    assert(is_host_for(loaded, path, v));
    assert(scope.hosts@ =~= seq![loaded[v]]);
    assert(ints(scope.guests@).len() == 0);
}

/// A handle that is open can be closed, once, and is then free memory again. A
/// library of the host is counted once less for a handle that was opened from
/// it, and is no longer visible exactly if that was the last one and no image
/// depends on it. All other handles, counts and visible libraries stay, as does
/// everything where there was no such handle.
pub proof fn closing_undoes_opening(
    dyld: &mut Dyld,
    handle: MutVoidPtr,
    mem: &mut Mem,
    closed: bool,
    dyld_later: &mut Dyld,
    mem_later: &mut Mem,
    closed_again: bool,
)
    requires
        old(dyld).wf(),
        old(mem).wf(),
        call_ensures(Dyld::close_library, (dyld, handle, mem), closed),
        *old(dyld_later) == *final(dyld),
        call_ensures(Dyld::close_library, (dyld_later, handle, mem_later), closed_again),
    ensures
        !closed_again,
        ({
            let before = *old(dyld);
            let after = *final(dyld);
            let bits = handle.bits();
            let library = before.library_handles.library(bits);
            &&& closed == (library is Some)
            &&& !closed ==> after == before && *final(mem) == *old(mem)
            &&& closed ==> {
                &&& bits != 0 && bits != 0x7461_736b && old(mem).blocks().contains_key(bits)
                    ==> final(mem).blocks() == old(mem).blocks().remove(bits)
                &&& after.library_handles.library(bits) is None
                &&& forall|other: u32|
                    other != bits ==> #[trigger] after.library_handles.library(other)
                        == before.library_handles.library(other)
                &&& forall|own: Seq<char>|
                    !library.unwrap().is_host(own) ==> {
                        &&& #[trigger] after.dynamic_host_refs.count(own)
                            == before.dynamic_host_refs.count(own)
                        &&& is_listed(after.loaded_host_dylibs@, own) == is_listed(
                            before.loaded_host_dylibs@,
                            own,
                        )
                    }
                &&& library matches Some(OpenLibrary::Host(own)) ==> {
                    let count = before.dynamic_host_refs.count(own@);
                    &&& count is Some && count.unwrap() > 0
                    &&& after.dynamic_host_refs.count(own@) == Some((count.unwrap() - 1) as u128)
                    &&& is_listed(before.loaded_host_dylibs@, own@)
                    &&& is_listed(after.loaded_host_dylibs@, own@) <==> count.unwrap() > 1
                        || is_among(before.pinned_host_dylibs@, own@)
                }
                &&& after.pinned_host_dylibs == before.pinned_host_dylibs
                &&& after.catalogue == before.catalogue
            }
        }),
{
    let before = *old(dyld);
    let after = *final(dyld);
    let library = before.library_handles.library(handle.bits());
    let was = before.loaded_host_dylibs@;
    let is = after.loaded_host_dylibs@;
    if let Some(OpenLibrary::Host(own)) = library {
        before.library_handles.users_bounded(own@);
        assert(library.unwrap().is_host(own@));
        assert(before.library_handles.users(own@) > 0);
        lemma_without_path(was, own@);
        assert(is_among(before.pinned_host_dylibs@, own@) == has_text(
            before.pinned_host_dylibs@,
            own@,
        ));
        assert(is_listed(was, own@) == lists_path(was, own@));
        assert(is_listed(is, own@) == lists_path(is, own@));
    }
    if library is Some {
        assert forall|own: Seq<char>| !library.unwrap().is_host(own) implies {
            &&& #[trigger] after.dynamic_host_refs.count(own) == before.dynamic_host_refs.count(
                own,
            )
            &&& is_listed(is, own) == is_listed(was, own)
        } by {
            assert(is_listed(is, own) == lists_path(is, own));
            assert(is_listed(was, own) == lists_path(was, own));
        }
    }
}

/// What the guest's calls do is what the dynamic linker does for the texts that
/// they point to: a null path stands for everything, a path that is no text or
/// means nothing gives null.
pub proof fn guest_calls_open_by_text(
    dyld: &mut Dyld,
    bins: &[MachO],
    mem: &mut Mem,
    path: ConstPtr<u8>,
    text: Result<String, Vec<u8>>,
    handle: MutVoidPtr,
)
    requires
        old(dyld).wf(),
        old(mem).wf(),
        call_ensures(Mem::cstr_at_utf8::<false>, (old(mem), path), text),
        call_ensures(dlopen, (dyld, bins, mem, path), handle),
    ensures
        ({
            let catalogue = old(dyld).catalogue@;
            let bits = handle.bits();
            let nothing = match text {
                Ok(text) => has_no_image(catalogue, bins@, text@) && has_no_host(catalogue, text@),
                Err(_) => true,
            };
            &&& path.bits() == 0 ==> bits == 0xffff_fffe
            &&& path.bits() != 0 && nothing ==> bits == 0
            &&& path.bits() == 0 || nothing ==> *final(dyld) == *old(dyld) && *final(mem)
                == *old(mem)
            &&& path.bits() != 0 && !nothing ==> {
                &&& bits != 0
                &&& !old(mem).blocks().contains_key(bits)
                &&& final(mem).blocks().contains_key(bits)
                &&& final(dyld).library_handles.library(bits) is Some
                &&& is_opened_by(
                    catalogue,
                    bins@,
                    text.unwrap()@,
                    final(dyld).library_handles.library(bits).unwrap(),
                )
            }
        }),
{
    let catalogue = old(dyld).catalogue@;
    if let Ok(text) = text {
        lemma_image_for(catalogue, bins@, text@);
        lemma_host_for(catalogue, text@);
    }
}

/// What the guest opens by the text of a path that means an image is looked up
/// in that image, under the name in C with an underscore in front.
pub proof fn guest_finds_symbols_of_what_it_opened(
    dyld: &mut Dyld,
    bins: &[MachO],
    mem: &mut Mem,
    path: ConstPtr<u8>,
    text: String,
    handle: MutVoidPtr,
    i: int,
    dyld_later: &mut Dyld,
    mem_later: &mut Mem,
    symbol: ConstPtr<u8>,
    name: String,
    addr: u32,
    caller: u32,
    target: Option<SymbolTarget>,
)
    requires
        old(dyld).wf(),
        old(mem).wf(),
        path.bits() != 0,
        call_ensures(Mem::cstr_at_utf8::<false>, (old(mem), path), Ok(text)),
        call_ensures(dlopen, (dyld, bins, mem, path), handle),
        is_image_for(old(dyld).catalogue@, bins@, text@, i),
        forall|k: int|
            0 <= k < i ==> !stands_for(
                old(dyld).catalogue@,
                #[trigger] bins@[k],
                own_name(bins@[i]),
            ),
        *old(dyld_later) == *final(dyld),
        symbol.bits() != 0,
        call_ensures(Mem::cstr_at_utf8::<false>, (old(mem_later), symbol), Ok(name)),
        is_visible(bins@[i], false, "_"@ + name@, addr),
        call_ensures(dlsym, (dyld_later, bins, mem_later, handle, symbol, caller), target),
    ensures
        target == Some(SymbolTarget::Guest { addr }),
        *final(dyld_later) == *old(dyld_later),
        *final(mem_later) == *old(mem_later),
{
    let catalogue = old(dyld).catalogue@;
    let images = loaded_images(*final(dyld), bins@);
    lemma_image_for(catalogue, bins@, text@);
    lemma_not_pseudo(*old(mem), *final(mem), handle.bits());
    let own = own_name(bins@[i]);
    assert(stands_for(catalogue, bins@[i], own));
    assert(is_image_for(catalogue, bins@, own, i));
    lemma_scope_of_path(images, own);
    assert(final(dyld).library_handles.path(handle.bits()) == Some(own));
    let view = ScopeView::empty().with_path(images, own, bins@.len());
    assert(view.guests[0] == i);
    assert(first_address(bins@, view.guests, None, "_"@ + name@, 0) == Some(addr));
}

/// The guest closes what it opened, once. The pseudo-handles can always be
/// closed, and nothing comes of it.
pub proof fn guest_calls_close(
    dyld: &mut Dyld,
    mem: &mut Mem,
    handle: MutVoidPtr,
    status: i32,
)
    requires
        old(dyld).wf(),
        old(mem).wf(),
        call_ensures(dlclose, (dyld, mem, handle), status),
    ensures
        ({
            let bits = handle.bits();
            let pseudo = bits == 0xffff_fffe || bits == 0xffff_ffff || bits == 0xffff_fffd || bits
                == 0xffff_fffb;
            let open = old(dyld).library_handles.library(bits) is Some;
            &&& status == 0 <==> pseudo || open
            &&& status == 0 || status == -1
            &&& pseudo || !open ==> *final(dyld) == *old(dyld) && *final(mem) == *old(mem)
            &&& !pseudo && open ==> final(dyld).library_handles.library(bits) is None
        }),
{
}

/// A library is there to be opened exactly if opening it gives a handle.
pub proof fn libraries_that_are_there_can_be_opened(
    dyld: &mut Dyld,
    path: &str,
    bins: &[MachO],
    mem: &mut Mem,
    there: bool,
    handle: Option<MutVoidPtr>,
)
    requires
        old(dyld).wf(),
        old(mem).wf(),
        call_ensures(Dyld::has_library, (old(dyld), bins, path), there),
        call_ensures(Dyld::open_library, (dyld, path, bins, mem), handle),
    ensures
        there == (handle is Some),
{
}

} // verus!
