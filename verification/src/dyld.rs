//! Dynamic linker: which libraries the guest sees, and where their symbols
//! are.
use vstd::prelude::*;

pub mod handle_laws;
pub mod handles;
pub mod laws;
pub mod lookup_laws;
pub mod scope_laws;
pub mod symbol_laws;
pub mod symbol_lookup;

use crate::dyld::handles::{HostRefs, LibraryHandles};
use crate::mem::bytes::splice;
use crate::mem::encoding::{byte_range_of_words, le_bytes, le_bytes_value};
use crate::mem::ptr::element_address;
use crate::mem::{ConstVoidPtr, Mem, MutPtr, Ptr};
use crate::text::same_text;

verus! {

/// A function that the host implements, by its number. Each export has a
/// number of its own, even where two go by the same name: see
/// [numbers_tell_apart].
#[derive(Clone, Copy, Debug, PartialEq, Eq, Structural)]
pub struct HostFunction(pub usize);

/// A class that the host implements, by its number.
#[derive(Clone, Copy, Debug, PartialEq, Eq, Structural)]
pub struct HostClass(pub usize);

/// A constant that the host provides.
#[derive(Clone, Copy, Debug, PartialEq, Eq)]
pub enum HostConstant {
    NullPtr,
    NSString(&'static str),
    /// One that has to be computed, by its number.
    Custom(usize),
}

/// Lists of names and what they stand for.
pub type Exports<T> = &'static [&'static [(&'static str, T)]];

/// A library that the host implements.
pub struct HostDylib {
    pub path: &'static str,
    /// Other paths under which the library is known.
    pub aliases: &'static [&'static str],
    pub class_exports: Exports<HostClass>,
    pub function_exports: Exports<HostFunction>,
    pub constant_exports: Exports<HostConstant>,
}

/// A function in guest memory.
#[derive(Clone, Copy, Debug, PartialEq, Eq, Structural)]
pub struct GuestFunction {
    pub addr: u32,
}

impl GuestFunction {
    /// The address. Its lowest bit says if the code is Thumb code.
    pub fn addr_with_thumb_bit(self) -> (addr: u32)
        ensures
            addr == self.addr,
    {
        self.addr
    }

    pub fn to_ptr(self) -> (ptr: ConstVoidPtr)
        ensures
            ptr.bits() == self.addr,
    {
        Ptr::from_bits(self.addr)
    }
}

/// The first supervisor call that stands for a function of the host. Those
/// below have uses of their own.
pub const SVC_LINKED_FUNCTIONS_BASE: u32 = 2;

/// Supervisor calls are numbered with 24 bits.
pub const SVC_LIMIT: u32 = 0x100_0000;

/// The instruction `svc`, without the number.
pub const INSTR_SVC: u32 = 0xef00_0000;

/// The instruction `bx lr`.
pub const INSTR_RETURN: u32 = 0xe12f_ff1e;

/// State of the dynamic linker.
pub struct Dyld {
    /// All libraries that the host implements. Not all of them are visible to
    /// the guest.
    pub catalogue: Vec<&'static HostDylib>,
    /// The libraries of the host that are visible.
    pub loaded_host_dylibs: Vec<&'static HostDylib>,
    /// Paths of those that stay visible.
    pub pinned_host_dylibs: Vec<&'static str>,
    /// How often those that the guest opened are open.
    pub dynamic_host_refs: HostRefs,
    /// The libraries that the guest opened.
    pub library_handles: LibraryHandles,
    /// The functions that exist in guest memory for exports of the host.
    pub scoped_host_functions: Vec<(HostFunction, GuestFunction)>,
    /// What the supervisor calls stand for.
    pub linked_host_functions: Vec<(&'static str, HostFunction)>,
}

/// The entries of some lists.
pub open spec fn list_entries(lists: Exports<HostFunction>, count: int) -> Seq<
    (&'static str, HostFunction),
>
    decreases count,
{
    if count <= 0 {
        Seq::empty()
    } else {
        list_entries(lists, count - 1) + lists@[count - 1]@
    }
}

/// The functions that the libraries of the host export.
pub open spec fn catalogue_exports(catalogue: Seq<&'static HostDylib>, count: int) -> Seq<
    (&'static str, HostFunction),
>
    decreases count,
{
    if count <= 0 {
        Seq::empty()
    } else {
        let lists = catalogue[count - 1].function_exports;
        catalogue_exports(catalogue, count - 1) + list_entries(lists, lists@.len() as int)
    }
}

/// Whether two exports with the same number are one entry, which more than
/// one library may list.
pub open spec fn numbers_tell_apart(exports: Seq<(&'static str, HostFunction)>) -> bool {
    forall|i: int, j: int|
        0 <= i < j < exports.len() && (#[trigger] exports[i]).1 == (#[trigger] exports[j]).1
            ==> exports[i].0@ == exports[j].0@
}

/// Whether two exports of libraries of the host with the same number are one
/// entry.
pub fn has_own_numbers(catalogue: &Vec<&'static HostDylib>) -> (yes: bool)
    ensures
        yes == numbers_tell_apart(catalogue_exports(catalogue@, catalogue@.len() as int)),
{
    let exports = collect_exports(catalogue);
    let mut i: usize = 0;
    while i < exports.len()
        invariant
            i <= exports@.len(),
            exports@ == catalogue_exports(catalogue@, catalogue@.len() as int),
            forall|a: int, b: int|
                0 <= a < b < exports@.len() && a < i && (#[trigger] exports@[a]).1 == (
                #[trigger] exports@[b]).1 ==> exports@[a].0@ == exports@[b].0@,
        decreases exports@.len() - i,
    {
        let mut j: usize = i + 1;
        while j < exports.len()
            invariant
                i < j <= exports@.len(),
                exports@ == catalogue_exports(catalogue@, catalogue@.len() as int),
                forall|b: int|
                    i < b < j && exports@[i as int].1 == (#[trigger] exports@[b]).1
                        ==> exports@[i as int].0@ == exports@[b].0@,
            decreases exports@.len() - j,
        {
            if exports[i].1 == exports[j].1 && !same_text(exports[i].0, exports[j].0) {
                assert(exports@[i as int].1 == exports@[j as int].1);
                return false;
            }
            j = j + 1;
        }
        i = i + 1;
    }
    true
}

fn collect_exports(catalogue: &Vec<&'static HostDylib>) -> (exports: Vec<
    (&'static str, HostFunction),
>)
    ensures
        exports@ == catalogue_exports(catalogue@, catalogue@.len() as int),
{
    let mut exports: Vec<(&'static str, HostFunction)> = Vec::new();
    let mut h: usize = 0;
    assert(exports@ =~= catalogue_exports(catalogue@, 0));
    while h < catalogue.len()
        invariant
            h <= catalogue@.len(),
            exports@ == catalogue_exports(catalogue@, h as int),
        decreases catalogue@.len() - h,
    {
        let lists = catalogue[h].function_exports;
        let ghost before = exports@;
        let mut l: usize = 0;
        assert(exports@ =~= before + list_entries(lists, 0));
        while l < lists.len()
            invariant
                l <= lists@.len(),
                exports@ == before + list_entries(lists, l as int),
            decreases lists@.len() - l,
        {
            let list = lists[l];
            let mut e: usize = 0;
            assert(exports@ =~= before + list_entries(lists, l as int) + list@.take(0));
            while e < list.len()
                invariant
                    e <= list@.len(),
                    exports@ == before + list_entries(lists, l as int) + list@.take(e as int),
                decreases list@.len() - e,
            {
                exports.push(list[e]);
                assert(list@.take(e + 1) =~= list@.take(e as int).push(list@[e as int]));
                e = e + 1;
                assert(exports@ =~= before + list_entries(lists, l as int) + list@.take(e as int));
            }
            assert(list@.take(e as int) =~= list@);
            l = l + 1;
            assert(exports@ =~= before + list_entries(lists, l as int));
        }
        h = h + 1;
    }
    exports
}

/// The function that was made for an export.
pub open spec fn made_for(
    functions: Seq<(HostFunction, GuestFunction)>,
    export: HostFunction,
    from: int,
) -> Option<GuestFunction>
    decreases functions.len() - from,
{
    if from >= functions.len() {
        None
    } else if functions[from].0 == export {
        Some(functions[from].1)
    } else {
        made_for(functions, export, from + 1)
    }
}

/// The code of a function that calls the host.
pub open spec fn host_call_code(svc: int) -> Seq<u8> {
    le_bytes((INSTR_SVC + svc) as nat, 4) + le_bytes(INSTR_RETURN as nat, 4)
}

impl Dyld {
    pub open spec fn same_libraries(self, other: Self) -> bool {
        &&& self.catalogue@ == other.catalogue@
        &&& self.loaded_host_dylibs@ == other.loaded_host_dylibs@
        &&& self.pinned_host_dylibs@ == other.pinned_host_dylibs@
        &&& self.dynamic_host_refs == other.dynamic_host_refs
        &&& self.library_handles == other.library_handles
    }

    /// Makes a function in guest memory that calls the host.
    pub fn create_guest_function(
        &mut self,
        mem: &mut Mem,
        symbol: &'static str,
        f: HostFunction,
    ) -> (function: GuestFunction)
        requires
            old(mem).wf(),
            old(mem).heap().has_room(8),
            old(self).linked_host_functions@.len() + SVC_LINKED_FUNCTIONS_BASE < SVC_LIMIT,
        ensures
            final(mem).wf(),
            final(mem).same_but_blocks(*old(mem)),
            old(mem).places(function.addr as int, 8),
            !old(mem).blocks().contains_key(function.addr),
            final(mem).blocks() == old(mem).blocks().insert(function.addr, 16),
            final(mem).contents() == splice(
                old(mem).contents(),
                function.addr as int,
                host_call_code(
                    old(self).linked_host_functions@.len() + SVC_LINKED_FUNCTIONS_BASE,
                ),
            ),
            final(self).linked_host_functions@ == old(self).linked_host_functions@.push(
                (symbol, f),
            ),
            final(self).scoped_host_functions@ == old(self).scoped_host_functions@,
            final(self).same_libraries(*old(self)),
    {
        broadcast use vstd::layout::layout_of_primitives;

        let svc: u32 = self.linked_host_functions.len() as u32 + SVC_LINKED_FUNCTIONS_BASE;
        self.linked_host_functions.push((symbol, f));
        let ptr: MutPtr<u32> = mem.allocate(8).cast();
        proof {
            byte_range_of_words();
            le_bytes_value((INSTR_SVC + svc) as nat, 4);
            le_bytes_value(INSTR_RETURN as nat, 4);
            Ptr::<u32, true>::lemma_at(element_address::<u32>(ptr.bits(), 1));
        }
        mem.write(ptr, INSTR_SVC + svc);
        mem.write(ptr + 1, INSTR_RETURN);
        assert(mem.contents() =~= splice(
            old(mem).contents(),
            ptr.bits() as int,
            host_call_code(svc as int),
        ));
        GuestFunction { addr: ptr.to_bits() }
    }

    fn find_made(&self, export: HostFunction) -> (function: Option<GuestFunction>)
        ensures
            function == made_for(self.scoped_host_functions@, export, 0),
    {
        let mut i: usize = 0;
        while i < self.scoped_host_functions.len()
            invariant
                i <= self.scoped_host_functions@.len(),
                made_for(self.scoped_host_functions@, export, 0) == made_for(
                    self.scoped_host_functions@,
                    export,
                    i as int,
                ),
            decreases self.scoped_host_functions@.len() - i,
        {
            let (made, function) = self.scoped_host_functions[i];
            if made == export {
                return Some(function);
            }
            i = i + 1;
        }
        None
    }

    /// Whether the function for an export is there, or there is room for it.
    pub open spec fn can_provide(self, mem: Mem, export: HostFunction) -> bool {
        made_for(self.scoped_host_functions@, export, 0) is None ==> {
            &&& mem.heap().has_room(8)
            &&& self.linked_host_functions@.len() + SVC_LINKED_FUNCTIONS_BASE < SVC_LIMIT
        }
    }

    /// Whether the function for an export is there, or there is room for it.
    pub fn has_room_to_provide(&self, mem: &Mem, export: HostFunction) -> (yes: bool)
        requires
            mem.wf(),
        ensures
            yes == self.can_provide(*mem, export),
    {
        if self.find_made(export).is_some() {
            return true;
        }
        let limit: usize = (SVC_LIMIT - SVC_LINKED_FUNCTIONS_BASE) as usize;
        mem.can_allocate(8) && self.linked_host_functions.len() < limit
    }

    /// What providing the function for an export of the host does: nothing
    /// where it was made before.
    pub open spec fn is_proc(
        before: Dyld,
        mem_before: Mem,
        after: Dyld,
        mem_after: Mem,
        entry: (&'static str, HostFunction),
        function: GuestFunction,
    ) -> bool {
        match made_for(before.scoped_host_functions@, entry.1, 0) {
            Some(made) => {
                &&& function == made
                &&& mem_after == mem_before
                &&& after == before
            },
            None => {
                &&& mem_after.same_but_blocks(mem_before)
                &&& mem_before.places(function.addr as int, 8)
                &&& !mem_before.blocks().contains_key(function.addr)
                &&& mem_after.blocks() == mem_before.blocks().insert(function.addr, 16)
                &&& mem_after.contents() == splice(
                    mem_before.contents(),
                    function.addr as int,
                    host_call_code(
                        before.linked_host_functions@.len() + SVC_LINKED_FUNCTIONS_BASE,
                    ),
                )
                &&& after.linked_host_functions@ == before.linked_host_functions@.push(entry)
                &&& after.scoped_host_functions@ == before.scoped_host_functions@.push(
                    (entry.1, function),
                )
            },
        }
    }

    /// The function in guest memory that stands for an export of the host. It
    /// is made when it is first asked for. Exports are told apart by what they
    /// are, not by how they are called.
    pub fn proc_for_export(
        &mut self,
        mem: &mut Mem,
        entry: &'static (&'static str, HostFunction),
    ) -> (function: Result<GuestFunction, ()>)
        requires
            old(mem).wf(),
            old(self).can_provide(*old(mem), entry.1),
        ensures
            final(mem).wf(),
            final(self).same_libraries(*old(self)),
            function is Ok,
            Self::is_proc(
                *old(self),
                *old(mem),
                *final(self),
                *final(mem),
                *entry,
                function.unwrap(),
            ),
    {
        if let Some(function) = self.find_made(entry.1) {
            return Ok(function);
        }
        let function = self.create_guest_function(mem, entry.0, entry.1);
        self.scoped_host_functions.push((entry.1, function));
        Ok(function)
    }
}

pub proof fn lemma_made_pushed(
    functions: Seq<(HostFunction, GuestFunction)>,
    export: HostFunction,
    function: GuestFunction,
    other: HostFunction,
    from: int,
)
    requires
        0 <= from <= functions.len(),
    ensures
        made_for(functions.push((export, function)), other, from) == if made_for(
            functions,
            other,
            from,
        ) is Some {
            made_for(functions, other, from)
        } else if other == export {
            Some(function)
        } else {
            None
        },
    decreases functions.len() - from,
{
    let longer = functions.push((export, function));
    if from < functions.len() {
        lemma_made_pushed(functions, export, function, other, from + 1);
        assert(longer[from] == functions[from]);
    } else {
        assert(longer[from] == (export, function));
        assert(made_for(longer, other, from + 1) is None);
    }
}

/// Asking again for an export gives the same function, and making one for
/// another export leaves it alone, even if the two go by the same name. While
/// the first one is in memory, the second one is elsewhere.
pub proof fn exports_have_their_own_functions(
    functions: Seq<(HostFunction, GuestFunction)>,
    mem: Mem,
    first: HostFunction,
    second: HostFunction,
    made: GuestFunction,
)
    requires
        made_for(functions, second, 0) is None,
        mem.places(made.addr as int, 8),
        !mem.blocks().contains_key(made.addr),
    ensures
        ({
            let after = functions.push((second, made));
            &&& made_for(after, second, 0) == Some(made)
            &&& made_for(functions, first, 0) matches Some(f) ==> {
                &&& first != second
                &&& made_for(after, first, 0) == Some(f)
                &&& mem.blocks().contains_key(f.addr) ==> f.addr != made.addr
            }
        }),
{
    lemma_made_pushed(functions, second, made, second, 0);
    lemma_made_pushed(functions, second, made, first, 0);
}

} // verus!
