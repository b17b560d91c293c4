//! What symbols are found to be.
use vstd::prelude::*;

use crate::dyld::symbol_lookup::{
    first_address, first_entry, first_export, first_in_lists, is_resolved, objc_symbol,
    visible_address, FoundSymbol, LookupScope, SymbolTarget,
};
use crate::dyld::{
    catalogue_exports, has_own_numbers, list_entries, numbers_tell_apart, Dyld, Exports,
    GuestFunction, HostClass, HostConstant, HostDylib, HostFunction,
};
use crate::mach_o::MachO;
use crate::mem::encoding::{le_bytes, le_bytes_value};
use crate::mem::{Mem, MutVoidPtr};
use crate::text::after_prefix;

verus! {

/// Whether a symbol is at an address in an image, as far as it can be seen:
/// private symbols are seen by the image itself only.
pub open spec fn is_visible(image: MachO, by_itself: bool, symbol: Seq<char>, addr: u32) -> bool {
    &&& image.exported_symbols.address(symbol) == Some(addr)
    &&& by_itself || !image.private_symbols.has(symbol)
}

/// Whether a symbol is at an address in one of the images of a scope.
pub open spec fn sees(scope: LookupScope<'_>, k: int, symbol: Seq<char>, addr: u32) -> bool {
    is_visible(
        scope.bins@[scope.guests@[k] as int],
        scope.local_image == Some(scope.guests@[k]),
        symbol,
        addr,
    )
}

/// Whether one of the images in a scope is the first to have a symbol.
pub open spec fn is_first_with(
    scope: LookupScope<'_>,
    symbol: Seq<char>,
    k: int,
    addr: u32,
) -> bool {
    &&& 0 <= k < scope.guests@.len()
    &&& sees(scope, k, symbol, addr)
    &&& forall|j: int, other: u32|
        0 <= j < k ==> !#[trigger] sees(scope, j, symbol, other)
}

proof fn lemma_first_address(scope: LookupScope<'_>, symbol: Seq<char>, from: int)
    requires
        0 <= from <= scope.guests@.len(),
        forall|j: int, other: u32|
            0 <= j < from ==> !#[trigger] sees(scope, j, symbol, other),
    ensures
        match first_address(scope.bins@, scope.view().guests, scope.local(), symbol, from) {
            Some(addr) => exists|k: int| #[trigger] is_first_with(scope, symbol, k, addr),
            None => forall|j: int, other: u32|
                0 <= j < scope.guests@.len() ==> !#[trigger] sees(scope, j, symbol, other),
        },
    decreases scope.guests@.len() - from,
{
    if from < scope.guests@.len() {
        let image = scope.guests@[from];
        assert(scope.view().guests[from] == image);
        assert((scope.local() == Some(image as int)) == (scope.local_image == Some(image)));
        let found = visible_address(
            scope.bins@[image as int],
            scope.local() == Some(image as int),
            symbol,
        );
        if let Some(addr) = found {
            assert(is_first_with(scope, symbol, from, addr));
        } else {
            lemma_first_address(scope, symbol, from + 1);
        }
    }
}

/// A symbol is found in the first of the images of a scope in which it can be
/// seen, at the address that it has there.
pub proof fn guest_symbols_are_found_in_order(
    scope: &LookupScope<'_>,
    symbol: &str,
    addr: Option<u32>,
)
    requires
        scope.wf(),
        call_ensures(LookupScope::guest_address, (scope, symbol), addr),
    ensures
        match addr {
            Some(addr) => exists|k: int| #[trigger] is_first_with(*scope, symbol@, k, addr),
            None => forall|j: int, other: u32|
                0 <= j < scope.guests@.len() ==> !#[trigger] sees(*scope, j, symbol@, other),
        },
{
    lemma_first_address(*scope, symbol@, 0);
}

/// Whether an entry of one of the lists of one of the libraries has a name.
pub open spec fn is_entry<T>(
    exports: Seq<Exports<T>>,
    name: Seq<char>,
    at: (int, int, int),
) -> bool {
    &&& 0 <= at.0 < exports.len()
    &&& 0 <= at.1 < exports[at.0]@.len()
    &&& 0 <= at.2 < exports[at.0]@[at.1]@.len()
    &&& exports[at.0]@[at.1]@[at.2].0@ == name
}

/// Whether an entry comes before another one.
pub open spec fn is_earlier(a: (int, int, int), b: (int, int, int)) -> bool {
    a.0 < b.0 || (a.0 == b.0 && (a.1 < b.1 || (a.1 == b.1 && a.2 < b.2)))
}

/// Whether an entry is the first one with a name.
pub open spec fn is_first_entry<T>(
    exports: Seq<Exports<T>>,
    name: Seq<char>,
    at: (int, int, int),
    entry: (&'static str, T),
) -> bool {
    &&& is_entry(exports, name, at)
    &&& exports[at.0]@[at.1]@[at.2] == entry
    &&& forall|other: (int, int, int)| #[trigger]
        is_entry(exports, name, other) ==> !is_earlier(other, at)
}

/// Whether an entry is what a search for a name finds.
pub open spec fn is_found<T>(
    exports: Seq<Exports<T>>,
    name: Seq<char>,
    entry: Option<(&'static str, T)>,
) -> bool {
    match entry {
        Some(entry) => exists|at: (int, int, int)| #[trigger]
            is_first_entry(exports, name, at, entry),
        None => forall|at: (int, int, int)| !#[trigger] is_entry(exports, name, at),
    }
}

proof fn lemma_entry<T>(list: Seq<(&'static str, T)>, name: Seq<char>, from: int) -> (e: int)
    requires
        0 <= from <= list.len(),
        forall|k: int| 0 <= k < from ==> (#[trigger] list[k]).0@ != name,
    ensures
        match first_entry(list, name, from) {
            Some(entry) => {
                &&& 0 <= e < list.len()
                &&& list[e] == entry
                &&& entry.0@ == name
                &&& forall|k: int| 0 <= k < e ==> (#[trigger] list[k]).0@ != name
            },
            None => forall|k: int| 0 <= k < list.len() ==> (#[trigger] list[k]).0@ != name,
        },
    decreases list.len() - from,
{
    if from < list.len() && list[from].0@ != name {
        lemma_entry(list, name, from + 1)
    } else {
        from
    }
}

proof fn lemma_lists<T>(
    lists: Seq<&'static [(&'static str, T)]>,
    name: Seq<char>,
    from: int,
) -> (at: (int, int))
    requires
        0 <= from <= lists.len(),
        forall|l: int, e: int|
            0 <= l < from && 0 <= e < lists[l]@.len() ==> (#[trigger] lists[l]@[e]).0@ != name,
    ensures
        match first_in_lists(lists, name, from) {
            Some(entry) => {
                &&& 0 <= at.0 < lists.len()
                &&& 0 <= at.1 < lists[at.0]@.len()
                &&& lists[at.0]@[at.1] == entry
                &&& entry.0@ == name
                &&& forall|l: int, e: int|
                    0 <= l < lists.len() && 0 <= e < lists[l]@.len() && (l < at.0 || (l == at.0
                        && e < at.1)) ==> (#[trigger] lists[l]@[e]).0@ != name
            },
            None => forall|l: int, e: int|
                0 <= l < lists.len() && 0 <= e < lists[l]@.len() ==> (
                #[trigger] lists[l]@[e]).0@ != name,
        },
    decreases lists.len() - from,
{
    if from < lists.len() {
        let e = lemma_entry(lists[from]@, name, 0);
        if first_entry(lists[from]@, name, 0) is Some {
            (from, e)
        } else {
            lemma_lists(lists, name, from + 1)
        }
    } else {
        (0, 0)
    }
}

proof fn lemma_exports<T>(exports: Seq<Exports<T>>, name: Seq<char>, from: int)
    requires
        0 <= from <= exports.len(),
        forall|at: (int, int, int)| #[trigger] is_entry(exports, name, at) ==> at.0 >= from,
    ensures
        is_found(exports, name, first_export(exports, name, from)),
    decreases exports.len() - from,
{
    if from < exports.len() {
        let at = lemma_lists(exports[from]@, name, 0);
        if let Some(entry) = first_in_lists(exports[from]@, name, 0) {
            let place = (from, at.0, at.1);
            assert(is_entry(exports, name, place));
            assert forall|other: (int, int, int)| #[trigger]
                is_entry(exports, name, other) implies !is_earlier(other, place) by {
                if is_earlier(other, place) {
                    assert(other.0 == from);
                    assert(exports[from]@[other.1]@[other.2].0@ != name);
                }
            }
            assert(is_first_entry(exports, name, place, entry));
        } else {
            assert forall|other: (int, int, int)| #[trigger]
                is_entry(exports, name, other) implies other.0 >= from + 1 by {
                if other.0 == from {
                    assert(exports[from]@[other.1]@[other.2].0@ != name);
                }
            }
            lemma_exports(exports, name, from + 1);
        }
    }
}

/// What the libraries in a scope export, one after the other.
pub open spec fn functions_of(hosts: Seq<&'static HostDylib>) -> Seq<Exports<HostFunction>> {
    Seq::new(hosts.len(), |i: int| hosts[i].function_exports)
}

pub open spec fn constants_of(hosts: Seq<&'static HostDylib>) -> Seq<Exports<HostConstant>> {
    Seq::new(hosts.len(), |i: int| hosts[i].constant_exports)
}

pub open spec fn classes_of(hosts: Seq<&'static HostDylib>) -> Seq<Exports<HostClass>> {
    Seq::new(hosts.len(), |i: int| hosts[i].class_exports)
}

/// A function, constant or class of the host is the first one of that name in
/// the libraries of a scope, in their order.
pub proof fn host_symbols_are_found_in_order(
    scope: &LookupScope<'_>,
    name: &str,
    function: Option<&'static (&'static str, HostFunction)>,
    constant: Option<&'static (&'static str, HostConstant)>,
    class: Option<&'static (&'static str, HostClass)>,
)
    requires
        call_ensures(LookupScope::search_functions, (scope, name), function),
        call_ensures(LookupScope::search_constants, (scope, name), constant),
        call_ensures(LookupScope::search_classes, (scope, name), class),
    ensures
        is_found(
            functions_of(scope.hosts@),
            name@,
            match function {
                Some(entry) => Some(*entry),
                None => None,
            },
        ),
        is_found(
            constants_of(scope.hosts@),
            name@,
            match constant {
                Some(entry) => Some(*entry),
                None => None,
            },
        ),
        is_found(
            classes_of(scope.hosts@),
            name@,
            match class {
                Some(entry) => Some(*entry),
                None => None,
            },
        ),
{
    assert(functions_of(scope.hosts@) =~= scope.functions());
    assert(constants_of(scope.hosts@) =~= scope.constants());
    assert(classes_of(scope.hosts@) =~= scope.classes());
    lemma_exports(scope.functions(), name@, 0);
    lemma_exports(scope.constants(), name@, 0);
    lemma_exports(scope.classes(), name@, 0);
}

/// The symbol of a class is its name after a fixed prefix, and that of the
/// metaclass after another one. Nothing else is the symbol of a class.
pub proof fn class_symbols_have_prefixes(symbol: &str, class: Option<(&str, bool)>)
    requires
        call_ensures(objc_symbol, (symbol,), class),
    ensures
        match class {
            Some((name, meta)) => symbol@ == if meta {
                "_OBJC_METACLASS_$_"@ + name@
            } else {
                "_OBJC_CLASS_$_"@ + name@
            },
            None => forall|name: Seq<char>|
                symbol@ != #[trigger] ("_OBJC_METACLASS_$_"@ + name) && symbol@
                    != "_OBJC_CLASS_$_"@ + name,
        },
        forall|name: Seq<char>|
            symbol@ == #[trigger] ("_OBJC_CLASS_$_"@ + name) ==> (class matches Some((own, meta))
                && own@ == name && !meta),
        forall|name: Seq<char>|
            symbol@ == #[trigger] ("_OBJC_METACLASS_$_"@ + name) ==> (class matches Some(
                (own, meta),
            ) && own@ == name && meta),
{
    let plain = "_OBJC_CLASS_$_"@;
    let meta = "_OBJC_METACLASS_$_"@;
    reveal_strlit("_OBJC_CLASS_$_");
    reveal_strlit("_OBJC_METACLASS_$_");
    assert(plain[6] != meta[6]);
    assert forall|name: Seq<char>| symbol@ == #[trigger] (plain + name) implies after_prefix(
        symbol@,
        plain,
    ) == Some(name) by {
        assert(symbol@.take(plain.len() as int) =~= plain);
        assert(symbol@.skip(plain.len() as int) =~= name);
    }
    assert forall|name: Seq<char>| symbol@ == #[trigger] (meta + name) implies after_prefix(
        symbol@,
        meta,
    ) == Some(name) && after_prefix(symbol@, plain) is None by {
        assert(symbol@.take(meta.len() as int) =~= meta);
        assert(symbol@.skip(meta.len() as int) =~= name);
        if symbol@.take(plain.len() as int) == plain {
            assert(symbol@.take(plain.len() as int)[6] == symbol@[6]);
        }
    }
    if after_prefix(symbol@, plain) is Some {
        assert(symbol@ =~= plain + symbol@.skip(plain.len() as int));
    }
    if after_prefix(symbol@, meta) is Some {
        assert(symbol@ =~= meta + symbol@.skip(meta.len() as int));
    }
}

/// A symbol is what the images of the guest have for it. Where they have
/// nothing, it is a class of the host, or else a function, or else a constant.
pub proof fn guests_come_first_then_classes_functions_constants(
    scope: &LookupScope<'_>,
    symbol: &str,
    addr: Option<u32>,
    class: Option<(&str, bool)>,
    class_entry: Option<&'static (&'static str, HostClass)>,
    function: Option<&'static (&'static str, HostFunction)>,
    constant: Option<&'static (&'static str, HostConstant)>,
    found: Option<FoundSymbol<'_>>,
    has: bool,
)
    requires
        scope.wf(),
        call_ensures(LookupScope::guest_address, (scope, symbol), addr),
        call_ensures(objc_symbol, (symbol,), class),
        class matches Some((name, _)) ==> call_ensures(
            LookupScope::search_classes,
            (scope, name),
            class_entry,
        ),
        call_ensures(LookupScope::search_functions, (scope, symbol), function),
        call_ensures(LookupScope::search_constants, (scope, symbol), constant),
        call_ensures(LookupScope::resolve, (scope, symbol), found),
        call_ensures(LookupScope::has_symbol, (scope, symbol), has),
    ensures
        has == (found is Some),
        match (addr, class, function, constant) {
            (Some(addr), _, _, _) => found == Some(FoundSymbol::Guest { addr }),
            (None, Some((name, meta)), _, _) if class_entry is Some => found matches Some(
                FoundSymbol::Class { name: found_name, meta: found_meta },
            ) && found_name@ == name@ && found_meta == meta,
            (None, _, Some(entry), _) => found matches Some(
                FoundSymbol::Function { entry: found_entry },
            ) && *found_entry == *entry,
            (None, _, None, Some(entry)) => found == Some(
                FoundSymbol::Constant { constant: entry.1 },
            ),
            (None, _, None, None) => found is None,
        },
{
}

/// Looking a symbol up by handle gives what the symbol is among what the handle
/// stands for. For a function of the host, that is its code in guest memory.
/// Nothing else is made, and a handle that stands for nothing gives nothing.
pub proof fn lookup_by_handle_resolves_in_its_scope(
    dyld: &mut Dyld,
    mem: &mut Mem,
    bins: &[MachO],
    handle: MutVoidPtr,
    symbol: &str,
    caller: u32,
    scope: Option<LookupScope<'_>>,
    found: Option<FoundSymbol<'_>>,
    target: Option<SymbolTarget>,
)
    requires
        old(mem).wf(),
        call_ensures(Dyld::handle_scope, (old(dyld), handle, bins, caller), scope),
        scope matches Some(scope) ==> call_ensures(
            LookupScope::resolve,
            (&scope, symbol),
            found,
        ),
        call_ensures(Dyld::dynamic_symbol, (dyld, mem, bins, handle, symbol, caller), target),
    ensures
        scope is None ==> target is None,
        !(scope is Some && found matches Some(FoundSymbol::Function { .. })) ==> *final(dyld)
            == *old(dyld) && *final(mem) == *old(mem),
        scope is Some ==> match found {
            None => target is None,
            Some(FoundSymbol::Guest { addr }) => target == Some(SymbolTarget::Guest { addr }),
            Some(FoundSymbol::Class { name, meta }) => target matches Some(
                SymbolTarget::Class { name: own, meta: own_meta },
            ) && own@ == name@ && own_meta == meta,
            Some(FoundSymbol::Function { entry }) => target is Some && target.unwrap() is Function,
            Some(FoundSymbol::Constant { constant }) => target == Some(
                SymbolTarget::Constant { constant },
            ),
        },
{
    if let Some(scope) = scope {
        let (other, other_found) = choose|
            other: LookupScope<'_>,
            other_found: Option<FoundSymbol<'_>>,
        |
            {
                &&& other.view() == scope.view()
                &&& other.bins@ == bins@
                &&& other.local_image is None
                &&& #[trigger] is_resolved(other, symbol@, other_found)
                &&& Dyld::is_target(
                    *old(dyld),
                    *old(mem),
                    *final(dyld),
                    *final(mem),
                    other_found,
                    target,
                )
            };
        assert(other.hosts@ == other.view().hosts);
        assert(scope.hosts@ == scope.view().hosts);
        assert(other.functions() == scope.functions());
        assert(other.constants() == scope.constants());
        assert(other.classes() == scope.classes());
        assert(other.address(symbol@) == scope.address(symbol@));
        assert(is_resolved(scope, symbol@, found));
    }
}

/// A function of the host that is asked for the first time is made: a new block
/// of memory holds a supervisor call with the number of the function, and then
/// the instruction to return. Nothing else in memory changes. When it is asked
/// for again it is the same function.
pub proof fn host_functions_are_made_once(
    dyld: &mut Dyld,
    mem: &mut Mem,
    entry: &'static (&'static str, HostFunction),
    first: GuestFunction,
    dyld_later: &mut Dyld,
    mem_later: &mut Mem,
    again: GuestFunction,
)
    requires
        old(mem).wf(),
        call_ensures(Dyld::proc_for_export, (dyld, mem, entry), Ok(first)),
        *old(dyld_later) == *final(dyld),
        call_ensures(Dyld::proc_for_export, (dyld_later, mem_later, entry), Ok(again)),
    ensures
        again == first,
        *final(dyld_later) == *final(dyld),
        *final(mem_later) == *old(mem_later),
        ({
            let was_made = exists|i: int|
                0 <= i < old(dyld).scoped_host_functions@.len() && (
                #[trigger] old(dyld).scoped_host_functions@[i]).0 == entry.1;
            let number = old(dyld).linked_host_functions@.len() + 2;
            let addr = first.addr as int;
            &&& was_made ==> *final(mem) == *old(mem)
            &&& !was_made && number < 0x100_0000 ==> {
                let code = final(mem).contents();
                &&& !old(mem).blocks().contains_key(first.addr)
                &&& final(mem).blocks().contains_key(first.addr)
                &&& code[addr] == number % 256
                &&& code[addr + 1] == number / 256 % 256
                &&& code[addr + 2] == number / 65536 % 256
                &&& code[addr + 3] == 0xef
                &&& code[addr + 4] == 0x1e && code[addr + 5] == 0xff
                &&& code[addr + 6] == 0x2f && code[addr + 7] == 0xe1
                &&& forall|other: int|
                    0 <= other < code.len() && !(addr <= other < addr + 8) ==> #[trigger]
                        code[other] == old(mem).contents()[other]
                &&& final(dyld).linked_host_functions@.len() == number - 1
                &&& final(dyld).linked_host_functions@[number - 2] == *entry
            }
        }),
{
    let made = old(dyld).scoped_host_functions@;
    lemma_made(made, entry.1, 0);
    crate::dyld::lemma_made_pushed(made, entry.1, first, entry.1, 0);
    let number = (old(dyld).linked_host_functions@.len() + 2) as nat;
    if crate::dyld::made_for(made, entry.1, 0) is None && number < 0x100_0000 {
        let addr = first.addr as int;
        lemma_code(number);
        let bytes = crate::dyld::host_call_code(number as int);
        old(mem).lemma_fits_mapped(addr, 8);
        assert(bytes.len() == 8);
        assert forall|k: int| 0 <= k < 8 implies #[trigger] final(mem).contents()[addr + k]
            == bytes[k] by {}
        assert(final(mem).contents()[addr + 0] == bytes[0]);
        assert(final(mem).contents()[addr + 1] == bytes[1]);
        assert(final(mem).contents()[addr + 2] == bytes[2]);
        assert(final(mem).contents()[addr + 3] == bytes[3]);
        assert(final(mem).contents()[addr + 4] == bytes[4]);
        assert(final(mem).contents()[addr + 5] == bytes[5]);
        assert(final(mem).contents()[addr + 6] == bytes[6]);
        assert(final(mem).contents()[addr + 7] == bytes[7]);
    }
}

proof fn lemma_made(
    functions: Seq<(HostFunction, GuestFunction)>,
    export: HostFunction,
    from: int,
)
    requires
        0 <= from,
        forall|i: int| 0 <= i < from && i < functions.len() ==> (#[trigger] functions[i]).0 != export,
    ensures
        crate::dyld::made_for(functions, export, from) is Some <==> exists|i: int|
            0 <= i < functions.len() && (#[trigger] functions[i]).0 == export,
    decreases functions.len() - from,
{
    if from < functions.len() && functions[from].0 != export {
        lemma_made(functions, export, from + 1);
    }
}

proof fn lemma_code(number: nat)
    requires
        number < 0x100_0000,
    ensures
        ({
            let bytes = crate::dyld::host_call_code(number as int);
            &&& bytes.len() == 8
            &&& bytes[0] == number % 256
            &&& bytes[1] == number / 256 % 256
            &&& bytes[2] == number / 65536 % 256
            &&& bytes[3] == 0xef
            &&& bytes[4] == 0x1e && bytes[5] == 0xff && bytes[6] == 0x2f && bytes[7] == 0xe1
        }),
{
    let call = (0xef00_0000 + number) as nat;
    lemma_four_bytes(call);
    lemma_four_bytes(0xe12f_ff1e);
    assert(call % 256 == number % 256);
    assert(call / 256 % 256 == number / 256 % 256);
    assert(call / 65536 % 256 == number / 65536 % 256);
    assert(call / 0x100_0000 % 256 == 0xef);
}

proof fn lemma_four_bytes(value: nat)
    ensures
        ({
            let bytes = le_bytes(value, 4);
            &&& bytes.len() == 4
            &&& bytes[0] == value % 256
            &&& bytes[1] == value / 256 % 256
            &&& bytes[2] == value / 65536 % 256
            &&& bytes[3] == value / 0x100_0000 % 256
        }),
{
    le_bytes_value(value, 4);
    reveal_with_fuel(le_bytes, 5);
    assert(value / 256 / 256 == value / 65536);
    assert(value / 256 / 256 / 256 == value / 0x100_0000);
}

/// Exports of the libraries of the host have numbers of their own exactly if no
/// two with different names share one.
pub proof fn numbers_tell_exports_apart(catalogue: &Vec<&'static HostDylib>, yes: bool)
    requires
        call_ensures(has_own_numbers, (catalogue,), yes),
    ensures
        yes <==> forall|a: (int, int, int), b: (int, int, int)|
            #![trigger is_export(catalogue@, a), is_export(catalogue@, b)]
            is_export(catalogue@, a) && is_export(catalogue@, b) && export_at(catalogue@, a).1
                == export_at(catalogue@, b).1 ==> export_at(catalogue@, a).0@ == export_at(
                catalogue@,
                b,
            ).0@,
{
    let hosts = catalogue@;
    let all = catalogue_exports(hosts, hosts.len() as int);
    lemma_all_exports(hosts, hosts.len() as int);
    if numbers_tell_apart(all) {
        assert forall|a: (int, int, int), b: (int, int, int)|
            #![trigger is_export(hosts, a), is_export(hosts, b)]
            is_export(hosts, a) && is_export(hosts, b) && export_at(hosts, a).1 == export_at(
                hosts,
                b,
            ).1 implies export_at(hosts, a).0@ == export_at(hosts, b).0@ by {
            assert(all.contains(export_at(hosts, a)) && all.contains(export_at(hosts, b)));
            let i = all.index_of(export_at(hosts, a));
            let j = all.index_of(export_at(hosts, b));
            if i < j {
                assert(all[i].1 == all[j].1);
            } else if j < i {
                assert(all[j].1 == all[i].1);
            }
        }
    } else {
        let (i, j) = choose|i: int, j: int|
            0 <= i < j < all.len() && (#[trigger] all[i]).1 == (#[trigger] all[j]).1
                && all[i].0@ != all[j].0@;
        assert(is_some_export(hosts, all[i]) && is_some_export(hosts, all[j]));
        let a = choose|a: (int, int, int)| #[trigger]
            is_export(hosts, a) && export_at(hosts, a) == all[i];
        let b = choose|b: (int, int, int)| #[trigger]
            is_export(hosts, b) && export_at(hosts, b) == all[j];
        assert(is_export(hosts, a) && is_export(hosts, b));
    }
}

/// Whether there is a function at a place in the lists of the libraries.
pub open spec fn is_export(hosts: Seq<&'static HostDylib>, at: (int, int, int)) -> bool {
    &&& 0 <= at.0 < hosts.len()
    &&& 0 <= at.1 < hosts[at.0].function_exports@.len()
    &&& 0 <= at.2 < hosts[at.0].function_exports@[at.1]@.len()
}

pub open spec fn export_at(
    hosts: Seq<&'static HostDylib>,
    at: (int, int, int),
) -> (&'static str, HostFunction) {
    hosts[at.0].function_exports@[at.1]@[at.2]
}

spec fn is_some_export(
    hosts: Seq<&'static HostDylib>,
    entry: (&'static str, HostFunction),
) -> bool {
    exists|a: (int, int, int)| #[trigger] is_export(hosts, a) && export_at(hosts, a) == entry
}

spec fn is_in_lists(
    lists: Exports<HostFunction>,
    count: int,
    entry: (&'static str, HostFunction),
) -> bool {
    exists|l: int, e: int|
        0 <= l < count && 0 <= e < lists@[l]@.len() && #[trigger] lists@[l]@[e] == entry
}

proof fn lemma_list_entries(lists: Exports<HostFunction>, count: int)
    requires
        0 <= count <= lists@.len(),
    ensures
        forall|l: int, e: int|
            0 <= l < count && 0 <= e < lists@[l]@.len() ==> list_entries(lists, count).contains(
                #[trigger] lists@[l]@[e],
            ),
        forall|i: int|
            0 <= i < list_entries(lists, count).len() ==> is_in_lists(
                lists,
                count,
                #[trigger] list_entries(lists, count)[i],
            ),
    decreases count,
{
    if count > 0 {
        lemma_list_entries(lists, count - 1);
        let few = list_entries(lists, count - 1);
        let all = list_entries(lists, count);
        let last = lists@[count - 1]@;
        assert forall|l: int, e: int|
            0 <= l < count && 0 <= e < lists@[l]@.len() implies all.contains(
            #[trigger] lists@[l]@[e],
        ) by {
            if l < count - 1 {
                let k = few.index_of(lists@[l]@[e]);
                assert(all[k] == lists@[l]@[e]);
            } else {
                assert(all[few.len() + e] == lists@[l]@[e]);
            }
        }
        assert forall|i: int| 0 <= i < all.len() implies is_in_lists(
            lists,
            count,
            #[trigger] all[i],
        ) by {
            if i < few.len() {
                assert(all[i] == few[i]);
                assert(is_in_lists(lists, count - 1, few[i]));
                let (l, e) = choose|l: int, e: int|
                    0 <= l < count - 1 && 0 <= e < lists@[l]@.len() && #[trigger] lists@[l]@[e]
                        == few[i];
                assert(lists@[l]@[e] == all[i]);
            } else {
                assert(lists@[count - 1]@[i - few.len()] == all[i]);
            }
        }
    }
}

proof fn lemma_all_exports(hosts: Seq<&'static HostDylib>, count: int)
    requires
        0 <= count <= hosts.len(),
    ensures
        forall|a: (int, int, int)| #[trigger]
            is_export(hosts, a) && a.0 < count ==> catalogue_exports(hosts, count).contains(
                export_at(hosts, a),
            ),
        forall|i: int|
            0 <= i < catalogue_exports(hosts, count).len() ==> is_some_export(
                hosts,
                #[trigger] catalogue_exports(hosts, count)[i],
            ),
    decreases count,
{
    if count > 0 {
        lemma_all_exports(hosts, count - 1);
        let lists = hosts[count - 1].function_exports;
        lemma_list_entries(lists, lists@.len() as int);
        let few = catalogue_exports(hosts, count - 1);
        let own = list_entries(lists, lists@.len() as int);
        let all = catalogue_exports(hosts, count);
        assert forall|a: (int, int, int)| #[trigger]
            is_export(hosts, a) && a.0 < count implies all.contains(export_at(hosts, a)) by {
            if a.0 < count - 1 {
                let k = few.index_of(export_at(hosts, a));
                assert(all[k] == export_at(hosts, a));
            } else {
                assert(own.contains(lists@[a.1]@[a.2]));
                let k = own.index_of(lists@[a.1]@[a.2]);
                assert(all[few.len() + k] == export_at(hosts, a));
            }
        }
        assert forall|i: int| 0 <= i < all.len() implies is_some_export(
            hosts,
            #[trigger] all[i],
        ) by {
            if i < few.len() {
                assert(all[i] == few[i]);
            } else {
                let k = i - few.len();
                assert(all[i] == own[k]);
                assert(is_in_lists(lists, lists@.len() as int, own[k]));
                let (l, e) = choose|l: int, e: int|
                    0 <= l < lists@.len() && 0 <= e < lists@[l]@.len() && #[trigger] lists@[l]@[e]
                        == own[k];
                let at = (count - 1, l, e);
                assert(is_export(hosts, at) && export_at(hosts, at) == all[i]);
            }
        }
    }
}

/// A function that is asked for by name is the one that a search finds, and
/// there is none where the search finds none.
pub proof fn functions_are_provided_by_name(
    dyld: &mut Dyld,
    mem: &mut Mem,
    scope: &LookupScope<'_>,
    symbol: &str,
    found: Option<&'static (&'static str, HostFunction)>,
    function: Result<GuestFunction, ()>,
    dyld_too: &mut Dyld,
    mem_too: &mut Mem,
    direct: Result<GuestFunction, ()>,
)
    requires
        old(mem).wf(),
        call_ensures(LookupScope::search_functions, (scope, symbol), found),
        call_ensures(Dyld::scoped_proc_address, (dyld, mem, scope, symbol), function),
        *old(dyld_too) == *old(dyld),
        *old(mem_too) == *old(mem),
        found matches Some(entry) ==> call_ensures(
            Dyld::proc_for_export,
            (dyld_too, mem_too, entry),
            direct,
        ),
    ensures
        function is Ok <==> found is Some,
        found is None ==> *final(dyld) == *old(dyld) && *final(mem) == *old(mem),
        found is Some ==> {
            &&& direct is Ok
            &&& function.unwrap() == direct.unwrap()
            &&& final(mem).blocks() == final(mem_too).blocks()
            &&& final(mem).contents() == final(mem_too).contents()
            &&& final(dyld).linked_host_functions@ == final(dyld_too).linked_host_functions@
        },
{
    if let Some(entry) = found {
        let a = function.unwrap().addr as int;
        let b = direct.unwrap().addr as int;
        if crate::dyld::made_for(old(dyld).scoped_host_functions@, entry.1, 0) is None {
            if a < b {
                assert(!old(mem).heap().fits(a, 8));
            } else if b < a {
                assert(!old(mem).heap().fits(b, 8));
            }
        }
    }
}

} // verus!
