//! `dlfcn.h` (`dlopen()` and friends)
use vstd::prelude::*;

use crate::dyld::symbol_lookup::{
    is_resolved, scope_of_handle, FoundSymbol, LookupScope, SymbolTarget,
    RTLD_DEFAULT, RTLD_MAIN_ONLY, RTLD_NEXT, RTLD_SELF,
};
use crate::dyld::Dyld;
use crate::mach_o::MachO;
use crate::mem::{ConstPtr, Mem, MutVoidPtr, Ptr, MAX_CSTR_LEN};
use vstd::utf8::{decode_utf8, valid_utf8};

verus! {

/// The C string at an address, if it is text.
pub open spec fn text_at(mem: Mem, addr: int) -> Option<Seq<char>> {
    let bytes = mem.bytes_seen(addr, mem.cstr_len(addr, MAX_CSTR_LEN as nat) as int);
    if valid_utf8(bytes) {
        Some(decode_utf8(bytes))
    } else {
        None
    }
}

/// Whether a lookup by address opens a library.
pub open spec fn opens(dyld: Dyld, bins: Seq<MachO>, mem: Mem, path: u32) -> bool {
    path != 0 && text_at(mem, path as int) is Some && dyld.finds(
        bins,
        text_at(mem, path as int).unwrap(),
    )
}

/// Whether there is room for the handle that opening a library makes, if it
/// makes one.
pub fn has_room_to_open(
    dyld: &Dyld,
    bins: &[MachO],
    mem: &Mem,
    path: ConstPtr<u8>,
) -> (yes: bool)
    requires
        mem.wf(),
    ensures
        yes == (opens(*dyld, bins@, *mem, path.bits()) ==> mem.heap().has_room(1)),
{
    if path.is_null() {
        return true;
    }
    match mem.cstr_at_utf8(path) {
        Ok(text) => !dyld.has_library(bins, text.as_str()) || mem.can_allocate(1),
        Err(_) => true,
    }
}

/// Open only implemented host libraries or guest images already mapped by the
/// loader. A handle is owned by the dynamic linker, not borrowed from the
/// caller's path buffer.
pub fn dlopen(
    dyld: &mut Dyld,
    bins: &[MachO],
    mem: &mut Mem,
    path: ConstPtr<u8>,
) -> (handle: MutVoidPtr)
    requires
        old(dyld).wf(),
        old(mem).wf(),
        opens(*old(dyld), bins@, *old(mem), path.bits()) ==> old(mem).heap().has_room(1),
    ensures
        final(dyld).wf(),
        final(mem).wf(),
        if opens(*old(dyld), bins@, *old(mem), path.bits()) {
            &&& handle.bits() != 0
            &&& final(mem).is_allocation(*old(mem), handle.bits(), 1)
            &&& final(dyld).is_opened(
                *old(dyld),
                bins@,
                text_at(*old(mem), path.bits() as int).unwrap(),
                handle.bits(),
            )
        } else {
            &&& handle.bits() == if path.bits() == 0 {
                RTLD_DEFAULT
            } else {
                0
            }
            &&& *final(dyld) == *old(dyld)
            &&& *final(mem) == *old(mem)
        },
{
    if path.is_null() {
        return Ptr::from_bits(RTLD_DEFAULT);
    }
    let text: String = match mem.cstr_at_utf8(path) {
        Ok(text) => text,
        Err(_) => {
            return Ptr::null();
        },
    };
    match dyld.open_library(text.as_str(), bins, mem) {
        Some(handle) => handle,
        None => Ptr::null(),
    }
}

/// The symbol that a name in C stands for.
pub open spec fn c_symbol(name: Seq<char>) -> Seq<char> {
    "_"@ + name
}

/// Whether there is room for the function that looking a symbol up makes, if it
/// makes one.
pub open spec fn can_find(
    dyld: Dyld,
    bins: Seq<MachO>,
    mem: Mem,
    handle: u32,
    symbol: u32,
    caller: u32,
) -> bool {
    symbol != 0 && text_at(mem, symbol as int) is Some ==> dyld.can_look_up(
        mem,
        bins,
        handle,
        c_symbol(text_at(mem, symbol as int).unwrap()),
        caller,
    )
}

/// The symbol whose name in C is at an address, if it is text.
fn symbol_at(mem: &Mem, symbol: ConstPtr<u8>) -> (name: Option<String>)
    requires
        mem.wf(),
    ensures
        match name {
            Some(name) => text_at(*mem, symbol.bits() as int) is Some && name@ == c_symbol(
                text_at(*mem, symbol.bits() as int).unwrap(),
            ),
            None => text_at(*mem, symbol.bits() as int) is None,
        },
{
    match mem.cstr_at_utf8(symbol) {
        Ok(text) => {
            let mut name = "_".to_string();
            name.append(text.as_str());
            Some(name)
        },
        Err(_) => None,
    }
}

/// Whether there is room for the function that looking a symbol up makes, if it
/// makes one.
pub fn has_room_to_find(
    dyld: &Dyld,
    bins: &[MachO],
    mem: &Mem,
    handle: MutVoidPtr,
    symbol: ConstPtr<u8>,
    caller: u32,
) -> (yes: bool)
    requires
        mem.wf(),
    ensures
        yes == can_find(*dyld, bins@, *mem, handle.bits(), symbol.bits(), caller),
{
    if symbol.is_null() {
        return true;
    }
    match symbol_at(mem, symbol) {
        Some(name) => dyld.has_room_to_look_up(mem, bins, handle, name.as_str(), caller),
        None => true,
    }
}

/// Looks a symbol up. `caller` is the address that the call returns to.
pub fn dlsym(
    dyld: &mut Dyld,
    bins: &[MachO],
    mem: &mut Mem,
    handle: MutVoidPtr,
    symbol: ConstPtr<u8>,
    caller: u32,
) -> (target: Option<SymbolTarget>)
    requires
        old(mem).wf(),
        can_find(*old(dyld), bins@, *old(mem), handle.bits(), symbol.bits(), caller),
    ensures
        final(mem).wf(),
        final(dyld).same_libraries(*old(dyld)),
        match (
            text_at(*old(mem), symbol.bits() as int),
            scope_of_handle(
                old(dyld).images(bins@),
                old(dyld).library_handles,
                handle.bits(),
                caller,
            ),
        ) {
            (Some(name), Some(view)) if symbol.bits() != 0 => exists|
                scope: LookupScope<'_>,
                found: Option<FoundSymbol<'_>>,
            |
                {
                    &&& scope.view() == view
                    &&& scope.bins@ == bins@
                    &&& scope.local_image is None
                    &&& #[trigger] is_resolved(scope, c_symbol(name), found)
                    &&& Dyld::is_target(
                        *old(dyld),
                        *old(mem),
                        *final(dyld),
                        *final(mem),
                        found,
                        target,
                    )
                },
            _ => target is None && *final(dyld) == *old(dyld) && *final(mem) == *old(mem),
        },
{
    if symbol.is_null() {
        return None;
    }
    let name: String = match symbol_at(mem, symbol) {
        Some(name) => name,
        None => {
            return None;
        },
    };
    dyld.dynamic_symbol(mem, bins, handle, name.as_str(), caller)
}

/// Closes a handle. Returns 0, or -1 if there is no such handle. Closing one
/// of the pseudo-handles does nothing.
pub fn dlclose(dyld: &mut Dyld, mem: &mut Mem, handle: MutVoidPtr) -> (status: i32)
    requires
        old(dyld).wf(),
        old(mem).wf(),
    ensures
        final(dyld).wf(),
        final(mem).wf(),
        ({
            let bits = handle.bits();
            let pseudo = bits == RTLD_DEFAULT || bits == RTLD_NEXT || bits == RTLD_SELF || bits
                == RTLD_MAIN_ONLY;
            let known = old(dyld).library_handles.library(bits) is Some;
            &&& status == if pseudo || known {
                0int
            } else {
                -1
            }
            &&& if !pseudo && known {
                &&& final(dyld).is_closed(*old(dyld), bits)
                &&& old(mem).frees(bits) ==> final(mem).is_release(*old(mem), bits)
                &&& !old(mem).frees(bits) ==> *final(mem) == *old(mem)
            } else {
                &&& *final(dyld) == *old(dyld)
                &&& *final(mem) == *old(mem)
            }
        }),
{
    let bits: u32 = handle.to_bits();
    if bits == RTLD_DEFAULT || bits == RTLD_NEXT || bits == RTLD_SELF || bits == RTLD_MAIN_ONLY {
        return 0;
    }
    if dyld.close_library(handle, mem) {
        0
    } else {
        -1
    }
}

/// No error is ever published, so the answer is always null: "If no errors
/// have occurred since initialization or since `dlerror()` was last called,
/// `dlerror()` returns NULL."
pub fn dlerror() -> (message: ConstPtr<u8>)
    ensures
        message.bits() == 0,
{
    Ptr::null()
}

} // verus!
