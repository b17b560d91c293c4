//! Process-local image visibility and Mach-O two-level lookup scopes.
use vstd::prelude::*;

use crate::dyld::handles::{HostRefs, LibraryHandles, OpenLibrary};
use crate::dyld::{
    catalogue_exports, numbers_tell_apart, Dyld, Exports, GuestFunction, HostClass, HostConstant,
    HostDylib, HostFunction,
};
use crate::mach_o::{ImportInfo, LibraryOrdinal, MachO};
use crate::mem::{Mem, MutVoidPtr};
use crate::numeric::counting::lemma_indices_fit;
use crate::text::{after_prefix, file_name, last_component, same_text, without_prefix};

verus! {

/// Whether a host library is known under a path.
pub open spec fn has_path(host: HostDylib, path: Seq<char>) -> bool {
    host.path@ == path || exists|i: int|
        0 <= i < host.aliases@.len() && (#[trigger] host.aliases@[i])@ == path
}

/// The first host library that is known under a path, by its index.
pub open spec fn first_host(
    hosts: Seq<&'static HostDylib>,
    path: Seq<char>,
    from: int,
) -> Option<int>
    decreases hosts.len() - from,
{
    if from >= hosts.len() {
        None
    } else if has_path(*hosts[from], path) {
        Some(from)
    } else {
        first_host(hosts, path, from + 1)
    }
}

/// Whether the host has one library for both paths.
pub open spec fn same_host_library(
    catalogue: Seq<&'static HostDylib>,
    a: Seq<char>,
    b: Seq<char>,
) -> bool {
    match (first_host(catalogue, a, 0), first_host(catalogue, b, 0)) {
        (Some(i), Some(j)) => catalogue[i].path@ == catalogue[j].path@,
        _ => false,
    }
}

/// Whether a path means the image. Where the image has an install name, paths
/// under which the host has the same library count too. Otherwise the name of
/// the file is enough.
pub open spec fn is_path_of(
    catalogue: Seq<&'static HostDylib>,
    image: MachO,
    path: Seq<char>,
) -> bool {
    match image.install_name {
        Some(name) => name@ == path || same_host_library(catalogue, name@, path),
        None => image.name@ == path || image.name@ == file_name(path),
    }
}

/// The first image that a path means, by its index.
pub open spec fn first_image(
    catalogue: Seq<&'static HostDylib>,
    bins: Seq<MachO>,
    path: Seq<char>,
    from: int,
) -> Option<int>
    decreases bins.len() - from,
{
    if from >= bins.len() {
        None
    } else if is_path_of(catalogue, bins[from], path) {
        Some(from)
    } else {
        first_image(catalogue, bins, path, from + 1)
    }
}

/// Whether the host library is known under the path.
fn host_has_path(host: &HostDylib, path: &str) -> (yes: bool)
    ensures
        yes == has_path(*host, path@),
{
    if same_text(host.path, path) {
        return true;
    }
    let mut i: usize = 0;
    while i < host.aliases.len()
        invariant
            i <= host.aliases@.len(),
            forall|k: int| 0 <= k < i ==> (#[trigger] host.aliases@[k])@ != path@,
        decreases host.aliases@.len() - i,
    {
        if same_text(host.aliases[i], path) {
            return true;
        }
        i = i + 1;
    }
    false
}

/// The first of the libraries that is known under a path.
pub fn find_host(hosts: &Vec<&'static HostDylib>, path: &str) -> (found: Option<&'static HostDylib>)
    ensures
        match found {
            Some(host) => {
                &&& first_host(hosts@, path@, 0) is Some
                &&& host == hosts@[first_host(hosts@, path@, 0).unwrap()]
            },
            None => first_host(hosts@, path@, 0) is None,
        },
{
    let mut i: usize = 0;
    while i < hosts.len()
        invariant
            i <= hosts@.len(),
            first_host(hosts@, path@, 0) == first_host(hosts@, path@, i as int),
        decreases hosts@.len() - i,
    {
        let host: &'static HostDylib = hosts[i];
        if host_has_path(host, path) {
            return Some(host);
        }
        i = i + 1;
    }
    None
}

/// Whether a path means the image.
fn image_matches(catalogue: &Vec<&'static HostDylib>, image: &MachO, path: &str) -> (yes: bool)
    ensures
        yes == is_path_of(catalogue@, *image, path@),
{
    match &image.install_name {
        Some(name) => {
            if same_text(name.as_str(), path) {
                return true;
            }
            match (find_host(catalogue, name.as_str()), find_host(catalogue, path)) {
                (Some(a), Some(b)) => same_text(a.path, b.path),
                _ => false,
            }
        },
        None => {
            same_text(image.name.as_str(), path) || same_text(
                image.name.as_str(),
                last_component(path),
            )
        },
    }
}

/// The first image that a path means, by its index.
fn find_image(
    catalogue: &Vec<&'static HostDylib>,
    bins: &[MachO],
    path: &str,
) -> (found: Option<usize>)
    ensures
        match found {
            Some(i) => first_image(catalogue@, bins@, path@, 0) == Some(i as int) && i < bins@.len(),
            None => first_image(catalogue@, bins@, path@, 0) is None,
        },
{
    let mut i: usize = 0;
    while i < bins.len()
        invariant
            i <= bins@.len(),
            first_image(catalogue@, bins@, path@, 0) == first_image(
                catalogue@,
                bins@,
                path@,
                i as int,
            ),
        decreases bins@.len() - i,
    {
        if image_matches(catalogue, &bins[i], path) {
            return Some(i);
        }
        i = i + 1;
    }
    None
}

/// A symbol of an Objective-C class: the name of the class, and whether the
/// symbol is that of the metaclass.
pub open spec fn class_of_symbol(symbol: Seq<char>) -> Option<(Seq<char>, bool)> {
    match after_prefix(symbol, "_OBJC_CLASS_$_"@) {
        Some(name) => Some((name, false)),
        None => match after_prefix(symbol, "_OBJC_METACLASS_$_"@) {
            Some(name) => Some((name, true)),
            None => None,
        },
    }
}

/// Takes the symbol of an Objective-C class apart.
pub fn objc_symbol<'a>(symbol: &'a str) -> (class: Option<(&'a str, bool)>)
    ensures
        match class {
            Some((name, meta)) => class_of_symbol(symbol@) == Some((name@, meta)),
            None => class_of_symbol(symbol@) is None,
        },
{
    match without_prefix(symbol, "_OBJC_CLASS_$_") {
        Some(name) => Some((name, false)),
        None => match without_prefix(symbol, "_OBJC_METACLASS_$_") {
            Some(name) => Some((name, true)),
            None => None,
        },
    }
}

/// The first entry with a name in a list.
pub open spec fn first_entry<T>(
    list: Seq<(&'static str, T)>,
    symbol: Seq<char>,
    from: int,
) -> Option<(&'static str, T)>
    decreases list.len() - from,
{
    if from >= list.len() {
        None
    } else if list[from].0@ == symbol {
        Some(list[from])
    } else {
        first_entry(list, symbol, from + 1)
    }
}

/// The first entry with a name in any of the lists.
pub open spec fn first_in_lists<T>(
    lists: Seq<&'static [(&'static str, T)]>,
    symbol: Seq<char>,
    from: int,
) -> Option<(&'static str, T)>
    decreases lists.len() - from,
{
    if from >= lists.len() {
        None
    } else if first_entry(lists[from]@, symbol, 0) is Some {
        first_entry(lists[from]@, symbol, 0)
    } else {
        first_in_lists(lists, symbol, from + 1)
    }
}

/// The first entry with a name in the exports of any of the libraries.
pub open spec fn first_export<T>(
    exports: Seq<Exports<T>>,
    symbol: Seq<char>,
    from: int,
) -> Option<(&'static str, T)>
    decreases exports.len() - from,
{
    if from >= exports.len() {
        None
    } else if first_in_lists(exports[from]@, symbol, 0) is Some {
        first_in_lists(exports[from]@, symbol, 0)
    } else {
        first_export(exports, symbol, from + 1)
    }
}

/// What was found, by value.
pub open spec fn entry_value<T>(
    entry: Option<&'static (&'static str, T)>,
) -> Option<(&'static str, T)> {
    match entry {
        Some(entry) => Some(*entry),
        None => None,
    }
}

fn search_list<T>(
    list: &'static [(&'static str, T)],
    symbol: &str,
) -> (entry: Option<&'static (&'static str, T)>)
    ensures
        entry_value(entry) == first_entry(list@, symbol@, 0),
{
    let mut i: usize = 0;
    while i < list.len()
        invariant
            i <= list@.len(),
            first_entry(list@, symbol@, 0) == first_entry(list@, symbol@, i as int),
        decreases list@.len() - i,
    {
        let entry: &'static (&'static str, T) = &list[i];
        if same_text(entry.0, symbol) {
            return Some(entry);
        }
        i = i + 1;
    }
    None
}

/// The first entry with a name in any of the lists.
pub fn search_lists<T>(
    lists: Exports<T>,
    symbol: &str,
) -> (entry: Option<&'static (&'static str, T)>)
    ensures
        entry_value(entry) == first_in_lists(lists@, symbol@, 0),
{
    let mut i: usize = 0;
    while i < lists.len()
        invariant
            i <= lists@.len(),
            first_in_lists(lists@, symbol@, 0) == first_in_lists(lists@, symbol@, i as int),
        decreases lists@.len() - i,
    {
        if let Some(entry) = search_list(lists[i], symbol) {
            return Some(entry);
        }
        i = i + 1;
    }
    None
}

/// The images and libraries among which symbols are looked up.
pub struct LookupScope<'a> {
    /// Libraries of the host, in the order in which they are searched.
    pub hosts: Vec<&'static HostDylib>,
    /// Indices of images of the guest, in the order in which they are searched.
    pub guests: Vec<usize>,
    /// All images of the guest.
    pub bins: &'a [MachO],
    /// The image whose private symbols are visible.
    pub local_image: Option<usize>,
}

/// The images and libraries of a scope.
pub ghost struct ScopeView {
    pub hosts: Seq<&'static HostDylib>,
    pub guests: Seq<int>,
}

/// Everything that decides what is visible.
pub ghost struct Images {
    /// All libraries that the host implements.
    pub catalogue: Seq<&'static HostDylib>,
    /// All images of the guest.
    pub bins: Seq<MachO>,
    /// The libraries of the host that are loaded.
    pub loaded: Seq<&'static HostDylib>,
}

/// Texts as mathematical values.
pub open spec fn texts(strings: Seq<String>) -> Seq<Seq<char>> {
    strings.map_values(|s: String| s@)
}

/// Whether a library with the same path is among the given ones.
pub open spec fn lists_path(hosts: Seq<&'static HostDylib>, path: Seq<char>) -> bool {
    exists|i: int| 0 <= i < hosts.len() && (#[trigger] hosts[i]).path@ == path
}

/// The libraries with one more, unless it is among them.
pub open spec fn with_host(
    hosts: Seq<&'static HostDylib>,
    host: &'static HostDylib,
) -> Seq<&'static HostDylib> {
    if lists_path(hosts, host.path@) {
        hosts
    } else {
        hosts.push(host)
    }
}

impl ScopeView {
    pub open spec fn empty() -> ScopeView {
        ScopeView { hosts: Seq::empty(), guests: Seq::empty() }
    }

    /// The scope with one more image, and with what it passes off as its own.
    /// An image that is in the scope already is not visited again. The fuel
    /// is a bound on the images that are not.
    pub open spec fn with_image(self, images: Images, image: int, fuel: nat) -> ScopeView
        decreases fuel, 0nat,
    {
        if fuel == 0 || self.guests.contains(image) {
            self
        } else {
            (ScopeView { guests: self.guests.push(image), ..self }).with_paths(
                images,
                texts(images.bins[image].reexported_libraries@),
                0,
                (fuel - 1) as nat,
            )
        }
    }

    /// The scope with what the paths from `from` on mean.
    pub open spec fn with_paths(
        self,
        images: Images,
        paths: Seq<Seq<char>>,
        from: int,
        fuel: nat,
    ) -> ScopeView
        decreases fuel, 2 + paths.len() - from,
    {
        if from < 0 || from >= paths.len() {
            self
        } else {
            self.with_path(images, paths[from], fuel).with_paths(images, paths, from + 1, fuel)
        }
    }

    /// The scope with what a path means. An image of the guest takes
    /// precedence over its replacement by the host.
    pub open spec fn with_path(self, images: Images, path: Seq<char>, fuel: nat) -> ScopeView
        decreases fuel, 1nat,
    {
        match first_image(images.catalogue, images.bins, path, 0) {
            Some(image) => self.with_image(images, image, fuel),
            None => match first_host(images.loaded, path, 0) {
                Some(host) => ScopeView { hosts: with_host(self.hosts, images.loaded[host]), ..self },
                None => self,
            },
        }
    }
}

/// Indices as mathematical values.
pub open spec fn ints(indices: Seq<usize>) -> Seq<int> {
    indices.map_values(|i: usize| i as int)
}

/// All indices below a number.
pub open spec fn below(count: int) -> Seq<int> {
    Seq::new(count as nat, |i: int| i)
}

/// What a symbol is at in an image, as seen from the scope.
pub open spec fn visible_address(image: MachO, is_local: bool, symbol: Seq<char>) -> Option<u32> {
    if !is_local && image.private_symbols.has(symbol) {
        None
    } else {
        image.exported_symbols.address(symbol)
    }
}

/// The address of a symbol in the first of the images that has it.
pub open spec fn first_address(
    bins: Seq<MachO>,
    guests: Seq<int>,
    local_image: Option<int>,
    symbol: Seq<char>,
    from: int,
) -> Option<u32>
    decreases guests.len() - from,
{
    if from >= guests.len() {
        None
    } else {
        let image = guests[from];
        let address = visible_address(bins[image], local_image == Some(image), symbol);
        if address is Some {
            address
        } else {
            first_address(bins, guests, local_image, symbol, from + 1)
        }
    }
}

impl<'a> LookupScope<'a> {
    pub open spec fn view(self) -> ScopeView {
        ScopeView { hosts: self.hosts@, guests: ints(self.guests@) }
    }

    /// The image whose private symbols are visible.
    pub open spec fn local(self) -> Option<int> {
        match self.local_image {
            Some(i) => Some(i as int),
            None => None,
        }
    }

    /// Each image is in the scope once at most.
    pub open spec fn wf(self) -> bool {
        &&& self.view().guests.no_duplicates()
        &&& forall|k: int|
            0 <= k < self.view().guests.len() ==> 0 <= #[trigger] self.view().guests[k]
                < self.bins@.len()
    }

    /// Number of images that are not in the scope.
    spec fn unvisited(self) -> int {
        self.bins@.len() - self.guests@.len()
    }

    pub open spec fn functions(self) -> Seq<Exports<HostFunction>> {
        self.hosts@.map_values(|d: &'static HostDylib| d.function_exports)
    }

    pub open spec fn constants(self) -> Seq<Exports<HostConstant>> {
        self.hosts@.map_values(|d: &'static HostDylib| d.constant_exports)
    }

    pub open spec fn classes(self) -> Seq<Exports<HostClass>> {
        self.hosts@.map_values(|d: &'static HostDylib| d.class_exports)
    }

    /// The address of a symbol in the images of the guest.
    pub open spec fn address(self, symbol: Seq<char>) -> Option<u32> {
        first_address(self.bins@, self.view().guests, self.local(), symbol, 0)
    }

    /// Whether anything in the scope provides a symbol.
    pub open spec fn provides(self, symbol: Seq<char>) -> bool {
        ||| self.address(symbol) is Some
        ||| first_export(self.functions(), symbol, 0) is Some
        ||| first_export(self.constants(), symbol, 0) is Some
        ||| (class_of_symbol(symbol) is Some && first_export(
            self.classes(),
            class_of_symbol(symbol).unwrap().0,
            0,
        ) is Some)
    }

    /// Looks a symbol up in the libraries of the host. `exports` says which of
    /// their exports it is looked up in.
    pub fn search_host<T, F>(&self, exports: F, symbol: &str) -> (entry: Option<
        &'static (&'static str, T),
    >) where F: Fn(&HostDylib) -> Exports<T>
        requires
            forall|d: &HostDylib| #[trigger] exports.requires((d,)),
        ensures
            exists|lists: Seq<Exports<T>>|
                {
                    &&& lists.len() == self.hosts@.len()
                    &&& forall|i: int|
                        0 <= i < lists.len() ==> exports.ensures(
                            (self.hosts@[i],),
                            #[trigger] lists[i],
                        )
                    &&& entry_value(entry) == #[trigger] first_export(lists, symbol@, 0)
                },
    {
        let mut lists: Vec<Exports<T>> = Vec::new();
        let mut i: usize = 0;
        while i < self.hosts.len()
            invariant
                i <= self.hosts@.len(),
                lists@.len() == i,
                forall|d: &HostDylib| #[trigger] exports.requires((d,)),
                forall|k: int|
                    0 <= k < i ==> exports.ensures((self.hosts@[k],), #[trigger] lists@[k]),
            decreases self.hosts@.len() - i,
        {
            lists.push(exports(self.hosts[i]));
            i = i + 1;
        }
        let mut i: usize = 0;
        while i < lists.len()
            invariant
                i <= lists@.len(),
                first_export(lists@, symbol@, 0) == first_export(lists@, symbol@, i as int),
                lists@.len() == self.hosts@.len(),
                forall|k: int|
                    0 <= k < lists@.len() ==> exports.ensures(
                        (self.hosts@[k],),
                        #[trigger] lists@[k],
                    ),
            decreases lists@.len() - i,
        {
            if let Some(entry) = search_lists(lists[i], symbol) {
                assert(entry_value(Some(entry)) == first_export(lists@, symbol@, 0));
                return Some(entry);
            }
            i = i + 1;
        }
        assert(first_export(lists@, symbol@, 0) is None);
        None
    }

    /// The function that a symbol stands for in the libraries of the host.
    pub fn search_functions(
        &self,
        symbol: &str,
    ) -> (entry: Option<&'static (&'static str, HostFunction)>)
        ensures
            entry_value(entry) == first_export(self.functions(), symbol@, 0),
    {
        let exports = |d: &HostDylib| -> (list: Exports<HostFunction>)
            ensures
                list == d.function_exports,
            { d.function_exports };
        let entry = self.search_host(exports, symbol);
        proof {
            assert forall|lists: Seq<Exports<HostFunction>>|
                lists.len() == self.hosts@.len() && (forall|i: int|
                    0 <= i < lists.len() ==> exports.ensures(
                        (self.hosts@[i],),
                        #[trigger] lists[i],
                    )) implies #[trigger] first_export(lists, symbol@, 0) == first_export(
                self.functions(),
                symbol@,
                0,
            ) by {
                assert(lists =~= self.functions());
            }
        }
        entry
    }

    /// The constant that a symbol stands for in the libraries of the host.
    pub fn search_constants(
        &self,
        symbol: &str,
    ) -> (entry: Option<&'static (&'static str, HostConstant)>)
        ensures
            entry_value(entry) == first_export(self.constants(), symbol@, 0),
    {
        let exports = |d: &HostDylib| -> (list: Exports<HostConstant>)
            ensures
                list == d.constant_exports,
            { d.constant_exports };
        let entry = self.search_host(exports, symbol);
        proof {
            assert forall|lists: Seq<Exports<HostConstant>>|
                lists.len() == self.hosts@.len() && (forall|i: int|
                    0 <= i < lists.len() ==> exports.ensures(
                        (self.hosts@[i],),
                        #[trigger] lists[i],
                    )) implies #[trigger] first_export(lists, symbol@, 0) == first_export(
                self.constants(),
                symbol@,
                0,
            ) by {
                assert(lists =~= self.constants());
            }
        }
        entry
    }

    /// The class that a name stands for in the libraries of the host.
    pub fn search_classes(&self, name: &str) -> (entry: Option<&'static (&'static str, HostClass)>)
        ensures
            entry_value(entry) == first_export(self.classes(), name@, 0),
    {
        let exports = |d: &HostDylib| -> (list: Exports<HostClass>)
            ensures
                list == d.class_exports,
            { d.class_exports };
        let entry = self.search_host(exports, name);
        proof {
            assert forall|lists: Seq<Exports<HostClass>>|
                lists.len() == self.hosts@.len() && (forall|i: int|
                    0 <= i < lists.len() ==> exports.ensures(
                        (self.hosts@[i],),
                        #[trigger] lists[i],
                    )) implies #[trigger] first_export(lists, name@, 0) == first_export(
                self.classes(),
                name@,
                0,
            ) by {
                assert(lists =~= self.classes());
            }
        }
        entry
    }

    /// The address of a symbol in the images of the guest. Private symbols
    /// are visible in their own image only.
    pub fn guest_address(&self, symbol: &str) -> (addr: Option<u32>)
        requires
            self.wf(),
        ensures
            addr == self.address(symbol@),
    {
        let ghost guests = self.view().guests;
        let mut i: usize = 0;
        while i < self.guests.len()
            invariant
                self.wf(),
                guests == self.view().guests,
                i <= self.guests@.len(),
                first_address(self.bins@, guests, self.local(), symbol@, 0) == first_address(
                    self.bins@,
                    guests,
                    self.local(),
                    symbol@,
                    i as int,
                ),
            decreases self.guests@.len() - i,
        {
            let image: usize = self.guests[i];
            assert(guests[i as int] == image);
            let local = match self.local_image {
                Some(l) => l == image,
                None => false,
            };
            if local || !self.bins[image].private_symbols.contains(symbol) {
                let addr = self.bins[image].exported_symbols.get(symbol);
                if addr.is_some() {
                    return addr;
                }
            }
            i = i + 1;
        }
        None
    }

    /// Whether anything in the scope provides a symbol.
    pub fn has_symbol(&self, symbol: &str) -> (yes: bool)
        requires
            self.wf(),
        ensures
            yes == self.provides(symbol@),
    {
        if self.guest_address(symbol).is_some() || self.search_functions(symbol).is_some()
            || self.search_constants(symbol).is_some() {
            return true;
        }
        match objc_symbol(symbol) {
            Some((name, _)) => self.search_classes(name).is_some(),
            None => false,
        }
    }

    fn has_guest(&self, image: usize) -> (yes: bool)
        ensures
            yes == self.view().guests.contains(image as int),
    {
        let mut i: usize = 0;
        while i < self.guests.len()
            invariant
                i <= self.guests@.len(),
                forall|k: int| 0 <= k < i ==> self.guests@[k] != image,
            decreases self.guests@.len() - i,
        {
            if self.guests[i] == image {
                assert(self.view().guests[i as int] == image);
                return true;
            }
            i = i + 1;
        }
        false
    }

    /// Adds an image, and what it passes off as its own.
    fn add_image(
        &mut self,
        image: usize,
        catalogue: &Vec<&'static HostDylib>,
        loaded: &Vec<&'static HostDylib>,
    )
        requires
            old(self).wf(),
            image < old(self).bins@.len(),
        ensures
            final(self).wf(),
            final(self).bins == old(self).bins,
            final(self).local_image == old(self).local_image,
            final(self).guests@.len() >= old(self).guests@.len(),
            forall|fuel: nat|
                fuel >= old(self).unvisited() ==> final(self).view() == #[trigger] old(
                    self,
                ).view().with_image(
                    Images { catalogue: catalogue@, bins: old(self).bins@, loaded: loaded@ },
                    image as int,
                    fuel,
                ),
        decreases old(self).unvisited(), 0nat, 0nat,
    {
        let ghost images = Images { catalogue: catalogue@, bins: self.bins@, loaded: loaded@ };
        proof {
            lemma_indices_fit(self.view().guests, self.bins@.len() as int);
        }
        if self.has_guest(image) {
            return ;
        }
        self.guests.push(image);
        let bins = self.bins;
        let paths: &Vec<String> = &bins[image].reexported_libraries;
        let ghost pushed = self.view();
        let ghost names = texts(paths@);
        proof {
            assert(pushed.guests =~= old(self).view().guests.push(image as int));
            lemma_indices_fit(self.view().guests, self.bins@.len() as int);
        }
        let ghost left = self.unvisited();
        let mut i: usize = 0;
        while i < paths.len()
            invariant
                i <= paths@.len(),
                self.wf(),
                self.bins == old(self).bins,
                self.bins == bins,
                self.local_image == old(self).local_image,
                images == (Images { catalogue: catalogue@, bins: bins@, loaded: loaded@ }),
                names == texts(paths@),
                self.unvisited() <= left,
                left < old(self).unvisited(),
                self.guests@.len() >= old(self).guests@.len(),
                forall|fuel: nat|
                    fuel >= left ==> #[trigger] pushed.with_paths(images, names, 0, fuel)
                        == self.view().with_paths(images, names, i as int, fuel),
            decreases paths@.len() - i,
        {
            let ghost before = self.view();
            proof {
                lemma_indices_fit(self.view().guests, self.bins@.len() as int);
            }
            self.add_path(paths[i].as_str(), catalogue, loaded);
            proof {
                assert forall|fuel: nat| fuel >= left implies #[trigger] pushed.with_paths(
                    images,
                    names,
                    0,
                    fuel,
                ) == self.view().with_paths(images, names, i + 1, fuel) by {
                    assert(names[i as int] == paths@[i as int]@);
                    assert(self.view() == before.with_path(images, names[i as int], fuel));
                }
            }
            i = i + 1;
        }
        proof {
            assert forall|fuel: nat| fuel >= old(self).unvisited() implies self.view()
                == #[trigger] old(self).view().with_image(images, image as int, fuel) by {
                let rest = (fuel - 1) as nat;
                assert(pushed.with_paths(images, names, 0, rest) == self.view().with_paths(
                    images,
                    names,
                    i as int,
                    rest,
                ));
            }
        }
    }

    /// Adds what a path means.
    fn add_path(
        &mut self,
        path: &str,
        catalogue: &Vec<&'static HostDylib>,
        loaded: &Vec<&'static HostDylib>,
    )
        requires
            old(self).wf(),
        ensures
            final(self).wf(),
            final(self).bins == old(self).bins,
            final(self).local_image == old(self).local_image,
            final(self).guests@.len() >= old(self).guests@.len(),
            forall|fuel: nat|
                fuel >= old(self).unvisited() ==> final(self).view() == #[trigger] old(
                    self,
                ).view().with_path(
                    Images { catalogue: catalogue@, bins: old(self).bins@, loaded: loaded@ },
                    path@,
                    fuel,
                ),
        decreases old(self).unvisited(), 1nat, 0nat,
    {
        let ghost images = Images { catalogue: catalogue@, bins: self.bins@, loaded: loaded@ };
        match find_image(catalogue, self.bins, path) {
            Some(image) => {
                self.add_image(image, catalogue, loaded);
                proof {
                    assert forall|fuel: nat| fuel >= old(self).unvisited() implies self.view()
                        == #[trigger] old(self).view().with_path(images, path@, fuel) by {
                        assert(self.view() == old(self).view().with_image(
                            images,
                            image as int,
                            fuel,
                        ));
                    }
                }
            },
            None => {
                if let Some(host) = find_host(loaded, path) {
                    add_host(&mut self.hosts, host);
                }
            },
        }
    }
}

/// Whether a library with the given path is in the list.
pub fn contains_path(hosts: &Vec<&'static HostDylib>, path: &str) -> (yes: bool)
    ensures
        yes == lists_path(hosts@, path@),
{
    let mut i: usize = 0;
    while i < hosts.len()
        invariant
            i <= hosts@.len(),
            forall|k: int| 0 <= k < i ==> (#[trigger] hosts@[k]).path@ != path@,
        decreases hosts@.len() - i,
    {
        if same_text(hosts[i].path, path) {
            return true;
        }
        i = i + 1;
    }
    false
}

/// Adds a library to the list, unless one with its path is in it.
pub fn add_host(hosts: &mut Vec<&'static HostDylib>, host: &'static HostDylib)
    ensures
        final(hosts)@ == with_host(old(hosts)@, host),
{
    if !contains_path(hosts, host.path) {
        hosts.push(host);
    }
}

/// Which image a symbol is looked up in, where the main executable has its
/// say.
pub open spec fn effective_ordinal(bins: Seq<MachO>, import: ImportInfo) -> LibraryOrdinal {
    if bins.len() > 0 && bins[0].force_flat_namespace {
        LibraryOrdinal::Flat
    } else {
        import.ordinal
    }
}

/// What an import of an image is looked up among.
pub open spec fn scope_of_import(images: Images, importer: int, import: ImportInfo) -> ScopeView {
    let fuel = images.bins.len();
    match effective_ordinal(images.bins, import) {
        LibraryOrdinal::Flat => ScopeView {
            hosts: images.loaded,
            guests: below(images.bins.len() as int),
        },
        LibraryOrdinal::SelfImage => ScopeView::empty().with_image(images, importer, fuel),
        LibraryOrdinal::MainExecutable => if images.bins.len() > 0 {
            ScopeView::empty().with_image(images, 0, fuel)
        } else {
            ScopeView::empty()
        },
        LibraryOrdinal::Dependency(n) => {
            let paths = texts(images.bins[importer].dynamic_libraries@);
            if 1 <= n <= paths.len() {
                ScopeView::empty().with_path(images, paths[n - 1], fuel)
            } else {
                ScopeView::empty()
            }
        },
        LibraryOrdinal::Invalid => ScopeView::empty(),
    }
}

/// The indices from `from` to below `to`.
fn index_range(from: usize, to: usize) -> (indices: Vec<usize>)
    requires
        from <= to,
    ensures
        ints(indices@) == Seq::new((to - from) as nat, |i: int| from + i),
{
    let mut indices: Vec<usize> = Vec::new();
    let mut i: usize = from;
    while i < to
        invariant
            from <= i <= to,
            indices@.len() == i - from,
            forall|k: int| 0 <= k < indices@.len() ==> indices@[k] == from + k,
        decreases to - i,
    {
        indices.push(i);
        i = i + 1;
    }
    assert(ints(indices@) =~= Seq::new((to - from) as nat, |i: int| from + i));
    indices
}

/// A copy of a list of libraries.
fn copy_hosts(hosts: &Vec<&'static HostDylib>) -> (copy: Vec<&'static HostDylib>)
    ensures
        copy@ == hosts@,
{
    let mut copy: Vec<&'static HostDylib> = Vec::new();
    let mut i: usize = 0;
    while i < hosts.len()
        invariant
            i <= hosts@.len(),
            copy@ == hosts@.take(i as int),
        decreases hosts@.len() - i,
    {
        copy.push(hosts[i]);
        assert(copy@ =~= hosts@.take(i + 1));
        i = i + 1;
    }
    assert(hosts@.take(i as int) =~= hosts@);
    copy
}

impl Dyld {
    /// Everything that decides what is visible.
    pub open spec fn images(self, bins: Seq<MachO>) -> Images {
        Images { catalogue: self.catalogue@, bins, loaded: self.loaded_host_dylibs@ }
    }

    fn empty_scope<'a>(bins: &'a [MachO]) -> (scope: LookupScope<'a>)
        ensures
            scope.wf(),
            scope.view() == ScopeView::empty(),
            scope.bins == bins,
            scope.local_image is None,
            scope.guests@.len() == 0,
    {
        let scope = LookupScope { hosts: Vec::new(), guests: Vec::new(), bins, local_image: None };
        assert(scope.view().hosts =~= Seq::empty());
        assert(scope.view().guests =~= Seq::empty());
        scope
    }

    /// All images of the guest and all visible libraries of the host.
    fn flat_scope<'a>(&self, bins: &'a [MachO]) -> (scope: LookupScope<'a>)
        ensures
            scope.wf(),
            scope.view() == (ScopeView {
                hosts: self.loaded_host_dylibs@,
                guests: below(bins@.len() as int),
            }),
            scope.bins == bins,
            scope.local_image is None,
    {
        let scope = LookupScope {
            hosts: copy_hosts(&self.loaded_host_dylibs),
            guests: index_range(0, bins.len()),
            bins,
            local_image: None,
        };
        assert(scope.view().guests =~= below(bins@.len() as int));
        scope
    }

    /// What an import is looked up among. `importer` is the index of the image
    /// that imports.
    pub fn lookup_scope<'a>(
        &self,
        importer: usize,
        bins: &'a [MachO],
        import: ImportInfo,
    ) -> (scope: LookupScope<'a>)
        requires
            importer < bins@.len(),
        ensures
            scope.wf(),
            scope.bins == bins,
            scope.view() == scope_of_import(self.images(bins@), importer as int, import),
            scope.local_image == if effective_ordinal(bins@, import) == LibraryOrdinal::SelfImage {
                Some(importer)
            } else {
                None
            },
    {
        let ordinal = if bins[0].force_flat_namespace {
            LibraryOrdinal::Flat
        } else {
            import.ordinal
        };
        let ghost fuel: nat = bins@.len();
        let mut scope = Self::empty_scope(bins);
        match ordinal {
            LibraryOrdinal::Flat => {
                return self.flat_scope(bins);
            },
            LibraryOrdinal::SelfImage => {
                scope.local_image = Some(importer);
                let ghost start = scope.view();
                scope.add_image(importer, &self.catalogue, &self.loaded_host_dylibs);
                assert(scope.view() == start.with_image(
                    self.images(bins@),
                    importer as int,
                    fuel,
                ));
            },
            LibraryOrdinal::MainExecutable => {
                let ghost start = scope.view();
                scope.add_image(0, &self.catalogue, &self.loaded_host_dylibs);
                assert(scope.view() == start.with_image(self.images(bins@), 0, fuel));
            },
            LibraryOrdinal::Dependency(n) => {
                let paths: &Vec<String> = &bins[importer].dynamic_libraries;
                if n >= 1 && n <= paths.len() {
                    let ghost start = scope.view();
                    scope.add_path(
                        paths[n - 1].as_str(),
                        &self.catalogue,
                        &self.loaded_host_dylibs,
                    );
                    assert(texts(paths@)[n - 1] == paths@[n - 1]@);
                    assert(scope.view() == start.with_path(
                        self.images(bins@),
                        paths@[n - 1]@,
                        fuel,
                    ));
                }
            },
            LibraryOrdinal::Invalid => {},
        }
        scope
    }

    /// The function in guest memory for a function of the host that is visible
    /// in the scope.
    pub fn scoped_proc_address(
        &mut self,
        mem: &mut Mem,
        scope: &LookupScope<'_>,
        symbol: &str,
    ) -> (function: Result<GuestFunction, ()>)
        requires
            old(mem).wf(),
            first_export(scope.functions(), symbol@, 0) matches Some(entry) ==> old(
                self,
            ).can_provide(*old(mem), entry.1),
        ensures
            final(mem).wf(),
            final(self).same_libraries(*old(self)),
            match first_export(scope.functions(), symbol@, 0) {
                None => {
                    &&& function is Err
                    &&& *final(mem) == *old(mem)
                    &&& *final(self) == *old(self)
                },
                Some(entry) => {
                    &&& function is Ok
                    &&& Self::is_proc(
                        *old(self),
                        *old(mem),
                        *final(self),
                        *final(mem),
                        entry,
                        function.unwrap(),
                    )
                },
            },
    {
        match scope.search_functions(symbol) {
            Some(entry) => self.proc_for_export(mem, entry),
            None => Err(()),
        }
    }
}

/// Whether a list of paths has a path.
pub open spec fn has_text(paths: Seq<&'static str>, path: Seq<char>) -> bool {
    exists|i: int| 0 <= i < paths.len() && (#[trigger] paths[i])@ == path
}

fn contains_text(paths: &Vec<&'static str>, path: &str) -> (yes: bool)
    ensures
        yes == has_text(paths@, path@),
{
    let mut i: usize = 0;
    while i < paths.len()
        invariant
            i <= paths@.len(),
            forall|k: int| 0 <= k < i ==> (#[trigger] paths@[k])@ != path@,
        decreases paths@.len() - i,
    {
        if same_text(paths[i], path) {
            return true;
        }
        i = i + 1;
    }
    false
}

/// The paths with one more, unless it is among them.
pub open spec fn with_text(paths: Seq<&'static str>, path: &'static str) -> Seq<&'static str> {
    if has_text(paths, path@) {
        paths
    } else {
        paths.push(path)
    }
}

/// The libraries of the host that become visible, and the paths of those that
/// stay visible, by the first `count` dependencies of an image. What an image
/// of the guest provides is none of the host's business.
pub open spec fn after_dependencies(
    catalogue: Seq<&'static HostDylib>,
    bins: Seq<MachO>,
    start: (Seq<&'static HostDylib>, Seq<&'static str>),
    paths: Seq<Seq<char>>,
    count: int,
) -> (Seq<&'static HostDylib>, Seq<&'static str>)
    decreases count,
{
    if count <= 0 {
        start
    } else {
        let (loaded, pinned) = after_dependencies(catalogue, bins, start, paths, count - 1);
        let path = paths[count - 1];
        if first_image(catalogue, bins, path, 0) is Some {
            (loaded, pinned)
        } else {
            match first_host(catalogue, path, 0) {
                Some(host) => (
                    with_host(loaded, catalogue[host]),
                    with_text(pinned, catalogue[host].path),
                ),
                None => (loaded, pinned),
            }
        }
    }
}

/// The same, by the dependencies of the first `count` images.
pub open spec fn after_images(
    catalogue: Seq<&'static HostDylib>,
    bins: Seq<MachO>,
    start: (Seq<&'static HostDylib>, Seq<&'static str>),
    count: int,
) -> (Seq<&'static HostDylib>, Seq<&'static str>)
    decreases count,
{
    if count <= 0 {
        start
    } else {
        let paths = texts(bins[count - 1].dynamic_libraries@);
        after_dependencies(
            catalogue,
            bins,
            after_images(catalogue, bins, start, count - 1),
            paths,
            paths.len() as int,
        )
    }
}

proof fn lemma_with_text(paths: Seq<&'static str>, path: &'static str)
    ensures
        forall|other: Seq<char>| #[trigger]
            has_text(with_text(paths, path), other) ==> has_text(paths, other) || other == path@,
{
    let longer = with_text(paths, path);
    assert forall|other: Seq<char>| #[trigger]
        has_text(longer, other) && other != path@ implies has_text(paths, other) by {
        let i = choose|i: int| 0 <= i < longer.len() && (#[trigger] longer[i])@ == other;
        assert(paths[i]@ == other);
    }
}

/// The libraries without those that have a path.
pub open spec fn without_path(
    hosts: Seq<&'static HostDylib>,
    path: Seq<char>,
) -> Seq<&'static HostDylib>
    decreases hosts.len(),
{
    if hosts.len() == 0 {
        hosts
    } else {
        let rest = without_path(hosts.drop_last(), path);
        if hosts.last().path@ == path {
            rest
        } else {
            rest.push(hosts.last())
        }
    }
}

fn remove_path(hosts: &Vec<&'static HostDylib>, path: &str) -> (rest: Vec<&'static HostDylib>)
    ensures
        rest@ == without_path(hosts@, path@),
{
    let mut rest: Vec<&'static HostDylib> = Vec::new();
    let mut i: usize = 0;
    assert(hosts@.take(0) =~= Seq::empty());
    assert(rest@ =~= without_path(hosts@.take(0), path@));
    while i < hosts.len()
        invariant
            i <= hosts@.len(),
            rest@ == without_path(hosts@.take(i as int), path@),
        decreases hosts@.len() - i,
    {
        proof {
            let longer = hosts@.take(i + 1);
            assert(longer.drop_last() =~= hosts@.take(i as int));
            assert(longer.last() == hosts@[i as int]);
        }
        if !same_text(hosts[i].path, path) {
            rest.push(hosts[i]);
        }
        i = i + 1;
    }
    assert(hosts@.take(i as int) =~= hosts@);
    rest
}

/// The name by which an image is known once it is opened.
pub open spec fn canonical_name(image: MachO) -> Seq<char> {
    match image.install_name {
        Some(name) => name@,
        None => image.name@,
    }
}

/// Whether each library is there once.
pub open spec fn listed_once(hosts: Seq<&'static HostDylib>) -> bool {
    forall|i: int, j: int|
        0 <= i < j < hosts.len() ==> (#[trigger] hosts[i]).path@ != (#[trigger] hosts[j]).path@
}

/// A library that is added is listed, once, with those that were before.
pub proof fn lemma_with_host(hosts: Seq<&'static HostDylib>, host: &'static HostDylib)
    ensures
        forall|path: Seq<char>| #[trigger]
            lists_path(with_host(hosts, host), path) <==> lists_path(hosts, path) || path
                == host.path@,
        listed_once(hosts) ==> listed_once(with_host(hosts, host)),
{
    let longer = with_host(hosts, host);
    if !lists_path(hosts, host.path@) {
        assert(longer[hosts.len() as int].path@ == host.path@);
        assert forall|path: Seq<char>| lists_path(hosts, path) implies #[trigger] lists_path(
            longer,
            path,
        ) by {
            let i = choose|i: int| 0 <= i < hosts.len() && (#[trigger] hosts[i]).path@ == path;
            assert(longer[i].path@ == path);
        }
        assert forall|path: Seq<char>| #[trigger]
            lists_path(longer, path) && path != host.path@ implies lists_path(hosts, path) by {
            let i = choose|i: int| 0 <= i < longer.len() && (#[trigger] longer[i]).path@ == path;
            assert(hosts[i].path@ == path);
        }
    }
}

/// A library that is taken out is no longer listed, the others still are.
pub proof fn lemma_without_path(hosts: Seq<&'static HostDylib>, path: Seq<char>)
    ensures
        forall|other: Seq<char>| #[trigger]
            lists_path(without_path(hosts, path), other) <==> lists_path(hosts, other) && other
                != path,
        listed_once(hosts) ==> listed_once(without_path(hosts, path)),
    decreases hosts.len(),
{
    if hosts.len() > 0 {
        let fewer = hosts.drop_last();
        let rest = without_path(fewer, path);
        let all = without_path(hosts, path);
        lemma_without_path(fewer, path);
        assert forall|other: Seq<char>| #[trigger]
            lists_path(all, other) <==> lists_path(hosts, other) && other != path by {
            lemma_lists_last(hosts, other);
            if all.len() > rest.len() {
                lemma_lists_last(all, other);
                assert(all.drop_last() =~= rest);
            }
            assert(lists_path(rest, other) <==> lists_path(fewer, other) && other != path);
        }
        if listed_once(hosts) {
            assert(listed_once(fewer));
            if hosts.last().path@ != path {
                assert forall|i: int, j: int| 0 <= i < j < all.len() implies (
                #[trigger] all[i]).path@ != (#[trigger] all[j]).path@ by {
                    if j == rest.len() {
                        assert(lists_path(rest, rest[i].path@));
                        assert(lists_path(fewer, rest[i].path@));
                        let k = choose|k: int|
                            0 <= k < fewer.len() && (#[trigger] fewer[k]).path@ == rest[i].path@;
                        assert(hosts[k].path@ != hosts[hosts.len() - 1].path@);
                    } else {
                        assert(rest[i].path@ != rest[j].path@);
                    }
                }
            }
        }
    }
}

proof fn lemma_lists_last(hosts: Seq<&'static HostDylib>, path: Seq<char>)
    requires
        hosts.len() > 0,
    ensures
        lists_path(hosts, path) <==> lists_path(hosts.drop_last(), path) || hosts.last().path@
            == path,
{
    let fewer = hosts.drop_last();
    if lists_path(fewer, path) {
        let i = choose|i: int| 0 <= i < fewer.len() && (#[trigger] fewer[i]).path@ == path;
        assert(hosts[i].path@ == path);
    }
    if lists_path(hosts, path) && hosts.last().path@ != path {
        let i = choose|i: int| 0 <= i < hosts.len() && (#[trigger] hosts[i]).path@ == path;
        assert(fewer[i].path@ == path);
    }
    if hosts.last().path@ == path {
        assert(hosts[hosts.len() - 1].path@ == path);
    }
}

/// The count after one more opening. It stops at a number that is never
/// reached.
pub open spec fn one_more(count: Option<u128>) -> u128 {
    match count {
        None => 1,
        Some(c) => if c < u128::MAX {
            (c + 1) as u128
        } else {
            c
        },
    }
}

impl Dyld {
    /// Exports are told apart by their numbers. Libraries of the host are open
    /// at least as often as there are handles that were opened from them, and
    /// those that are open or stay visible are visible, once.
    pub open spec fn wf(self) -> bool {
        &&& numbers_tell_apart(catalogue_exports(self.catalogue@, self.catalogue@.len() as int))
        &&& self.library_handles.wf()
        &&& listed_once(self.loaded_host_dylibs@)
        &&& forall|path: Seq<char>|
            (#[trigger] self.library_handles.users(path)) > 0 ==> {
                &&& self.dynamic_host_refs.count(path) is Some
                &&& self.dynamic_host_refs.count(path).unwrap() >= self.library_handles.users(path)
                &&& lists_path(self.loaded_host_dylibs@, path)
            }
        &&& forall|path: Seq<char>| #[trigger]
            has_text(self.pinned_host_dylibs@, path) ==> lists_path(self.loaded_host_dylibs@, path)
    }

    /// A dynamic linker that knows these libraries, none of which is loaded.
    pub fn new(catalogue: Vec<&'static HostDylib>) -> (dyld: Dyld)
        requires
            numbers_tell_apart(catalogue_exports(catalogue@, catalogue@.len() as int)),
        ensures
            dyld.wf(),
            dyld.catalogue@ == catalogue@,
            dyld.loaded_host_dylibs@ == Seq::<&'static HostDylib>::empty(),
            dyld.pinned_host_dylibs@ == Seq::<&'static str>::empty(),
            forall|path: Seq<char>| (#[trigger] dyld.dynamic_host_refs.count(path)) is None,
            forall|handle: u32| (#[trigger] dyld.library_handles.library(handle)) is None,
            dyld.scoped_host_functions@ == Seq::<(HostFunction, GuestFunction)>::empty(),
            dyld.linked_host_functions@ == Seq::<(&'static str, HostFunction)>::empty(),
    {
        Dyld {
            catalogue,
            loaded_host_dylibs: Vec::new(),
            pinned_host_dylibs: Vec::new(),
            dynamic_host_refs: HostRefs::new(),
            library_handles: LibraryHandles::new(),
            scoped_host_functions: Vec::new(),
            linked_host_functions: Vec::new(),
        }
    }

    /// Makes the libraries of the host visible that the images depend on, for
    /// good.
    pub fn register_loaded_images(&mut self, bins: &[MachO])
        requires
            old(self).wf(),
        ensures
            final(self).wf(),
            (final(self).loaded_host_dylibs@, final(self).pinned_host_dylibs@) == after_images(
                old(self).catalogue@,
                bins@,
                (old(self).loaded_host_dylibs@, old(self).pinned_host_dylibs@),
                bins@.len() as int,
            ),
            final(self).catalogue == old(self).catalogue,
            final(self).dynamic_host_refs == old(self).dynamic_host_refs,
            final(self).library_handles == old(self).library_handles,
            final(self).scoped_host_functions == old(self).scoped_host_functions,
            final(self).linked_host_functions == old(self).linked_host_functions,
    {
        let ghost start = (self.loaded_host_dylibs@, self.pinned_host_dylibs@);
        let mut i: usize = 0;
        while i < bins.len()
            invariant
                i <= bins@.len(),
                self.wf(),
                self.catalogue == old(self).catalogue,
                self.dynamic_host_refs == old(self).dynamic_host_refs,
                self.library_handles == old(self).library_handles,
                self.scoped_host_functions == old(self).scoped_host_functions,
                self.linked_host_functions == old(self).linked_host_functions,
                (self.loaded_host_dylibs@, self.pinned_host_dylibs@) == after_images(
                    self.catalogue@,
                    bins@,
                    start,
                    i as int,
                ),
            decreases bins@.len() - i,
        {
            let paths: &Vec<String> = &bins[i].dynamic_libraries;
            let ghost before = (self.loaded_host_dylibs@, self.pinned_host_dylibs@);
            let mut j: usize = 0;
            while j < paths.len()
                invariant
                    j <= paths@.len(),
                    self.wf(),
                    self.catalogue == old(self).catalogue,
                    self.dynamic_host_refs == old(self).dynamic_host_refs,
                    self.library_handles == old(self).library_handles,
                    self.scoped_host_functions == old(self).scoped_host_functions,
                    self.linked_host_functions == old(self).linked_host_functions,
                    (self.loaded_host_dylibs@, self.pinned_host_dylibs@) == after_dependencies(
                        self.catalogue@,
                        bins@,
                        before,
                        texts(paths@),
                        j as int,
                    ),
                decreases paths@.len() - j,
            {
                let path = paths[j].as_str();
                assert(texts(paths@)[j as int] == path@);
                if find_image(&self.catalogue, bins, path).is_none() {
                    if let Some(host) = find_host(&self.catalogue, path) {
                        let ghost loaded = self.loaded_host_dylibs@;
                        let ghost pinned = self.pinned_host_dylibs@;
                        proof {
                            lemma_with_host(loaded, host);
                            lemma_with_text(pinned, host.path);
                        }
                        add_host(&mut self.loaded_host_dylibs, host);
                        if !contains_text(&self.pinned_host_dylibs, host.path) {
                            self.pinned_host_dylibs.push(host.path);
                        }
                        assert(self.pinned_host_dylibs@ == with_text(pinned, host.path));
                        assert(forall|p: Seq<char>| #[trigger]
                            lists_path(loaded, p) ==> lists_path(self.loaded_host_dylibs@, p));
                    }
                }
                j = j + 1;
            }
            i = i + 1;
        }
    }

    /// Whether opening a library finds one.
    pub open spec fn finds(self, bins: Seq<MachO>, path: Seq<char>) -> bool {
        first_image(self.catalogue@, bins, path, 0) is Some || first_host(self.catalogue@, path, 0) is Some
    }

    /// Whether opening a library finds one.
    pub fn has_library(&self, bins: &[MachO], path: &str) -> (yes: bool)
        ensures
            yes == self.finds(bins@, path@),
    {
        find_image(&self.catalogue, bins, path).is_some() || find_host(
            &self.catalogue,
            path,
        ).is_some()
    }

    /// What opening a library does to the dynamic linker.
    pub open spec fn is_opened(
        self,
        before: Dyld,
        bins: Seq<MachO>,
        path: Seq<char>,
        handle: u32,
    ) -> bool {
        let catalogue = before.catalogue@;
        &&& self.catalogue == before.catalogue
        &&& self.pinned_host_dylibs == before.pinned_host_dylibs
        &&& self.scoped_host_functions == before.scoped_host_functions
        &&& self.linked_host_functions == before.linked_host_functions
        &&& match first_image(catalogue, bins, path, 0) {
            Some(image) => {
                &&& self.loaded_host_dylibs == before.loaded_host_dylibs
                &&& self.dynamic_host_refs == before.dynamic_host_refs
                &&& self.library_handles.library(handle) matches Some(OpenLibrary::Image(name))
                    && name@ == canonical_name(bins[image])
            },
            None => {
                let host = catalogue[first_host(catalogue, path, 0).unwrap()];
                &&& self.loaded_host_dylibs@ == with_host(before.loaded_host_dylibs@, host)
                &&& forall|other: Seq<char>| #[trigger]
                    self.dynamic_host_refs.count(other) == if other == host.path@ {
                        Some(one_more(before.dynamic_host_refs.count(other)))
                    } else {
                        before.dynamic_host_refs.count(other)
                    }
                &&& self.library_handles.library(handle) == Some(OpenLibrary::Host(host.path))
            },
        }
        &&& forall|other: u32|
            other != handle ==> #[trigger] self.library_handles.library(other)
                == before.library_handles.library(other)
    }

    /// Opens a library: one of the host, or an image that is loaded already.
    ///
    /// Handles are owned allocations, never pointers to caller-owned path
    /// strings.
    pub fn open_library(
        &mut self,
        path: &str,
        bins: &[MachO],
        mem: &mut Mem,
    ) -> (handle: Option<MutVoidPtr>)
        requires
            old(self).wf(),
            old(mem).wf(),
            old(self).finds(bins@, path@) ==> old(mem).heap().has_room(1),
        ensures
            final(self).wf(),
            final(mem).wf(),
            match handle {
                None => {
                    &&& !old(self).finds(bins@, path@)
                    &&& *final(self) == *old(self)
                    &&& *final(mem) == *old(mem)
                },
                Some(handle) => {
                    &&& old(self).finds(bins@, path@)
                    &&& final(mem).is_allocation(*old(mem), handle.bits(), 1)
                    &&& handle.bits() != 0
                    &&& final(self).is_opened(*old(self), bins@, path@, handle.bits())
                },
            },
    {
        let ghost loaded = self.loaded_host_dylibs@;
        let ghost refs = self.dynamic_host_refs;
        let ghost handles = self.library_handles;
        let library: OpenLibrary = match find_image(&self.catalogue, bins, path) {
            Some(image) => {
                let name = match &bins[image].install_name {
                    Some(name) => name.as_str().to_string(),
                    None => bins[image].name.as_str().to_string(),
                };
                OpenLibrary::Image(name)
            },
            None => {
                match find_host(&self.catalogue, path) {
                    None => {
                        return None;
                    },
                    Some(host) => {
                        proof {
                            lemma_with_host(loaded, host);
                        }
                        add_host(&mut self.loaded_host_dylibs, host);
                        let count: u128 = match self.dynamic_host_refs.get(host.path) {
                            Some(count) => count.saturating_add(1),
                            None => 1,
                        };
                        self.dynamic_host_refs.set(host.path, count);
                        OpenLibrary::Host(host.path)
                    },
                }
            },
        };
        let handle = mem.allocate(1);
        self.library_handles.insert(handle.to_bits(), library);
        proof {
            assert forall|p: Seq<char>| (#[trigger] self.library_handles.users(p)) > 0 implies {
                &&& self.dynamic_host_refs.count(p) is Some
                &&& self.dynamic_host_refs.count(p).unwrap() >= self.library_handles.users(p)
                &&& lists_path(self.loaded_host_dylibs@, p)
            } by {
                handles.users_bounded(p);
                if handles.users(p) > 0 {
                    assert(refs.count(p).unwrap() >= handles.users(p));
                    assert(lists_path(loaded, p));
                }
            }
        }
        Some(handle)
    }

    /// What closing a handle does to the dynamic linker, where there is one.
    /// Only a handle that was opened from a library of the host counts for it.
    pub open spec fn is_closed(self, before: Dyld, handle: u32) -> bool {
        &&& self.catalogue == before.catalogue
        &&& self.pinned_host_dylibs == before.pinned_host_dylibs
        &&& self.scoped_host_functions == before.scoped_host_functions
        &&& self.linked_host_functions == before.linked_host_functions
        &&& forall|other: u32| #[trigger]
            self.library_handles.library(other) == if other == handle {
                None
            } else {
                before.library_handles.library(other)
            }
        &&& match before.library_handles.library(handle) {
            Some(OpenLibrary::Host(path)) => {
                let count = before.dynamic_host_refs.count(path@);
                &&& forall|other: Seq<char>| #[trigger]
                    self.dynamic_host_refs.count(other) == if other == path@ {
                        Some((count.unwrap() - 1) as u128)
                    } else {
                        before.dynamic_host_refs.count(other)
                    }
                &&& self.loaded_host_dylibs@ == if count == Some(1u128) && !has_text(
                    before.pinned_host_dylibs@,
                    path@,
                ) {
                    without_path(before.loaded_host_dylibs@, path@)
                } else {
                    before.loaded_host_dylibs@
                }
            },
            _ => {
                &&& self.dynamic_host_refs == before.dynamic_host_refs
                &&& self.loaded_host_dylibs == before.loaded_host_dylibs
            },
        }
    }

    /// Closes a handle, and says whether there was one.
    pub fn close_library(&mut self, handle: MutVoidPtr, mem: &mut Mem) -> (closed: bool)
        requires
            old(self).wf(),
            old(mem).wf(),
        ensures
            final(self).wf(),
            final(mem).wf(),
            closed == (old(self).library_handles.library(handle.bits()) is Some),
            closed ==> {
                &&& final(self).is_closed(*old(self), handle.bits())
                &&& old(mem).frees(handle.bits()) ==> final(mem).is_release(
                    *old(mem),
                    handle.bits(),
                )
                &&& !old(mem).frees(handle.bits()) ==> *final(mem) == *old(mem)
            },
            !closed ==> {
                &&& *final(self) == *old(self)
                &&& *final(mem) == *old(mem)
            },
    {
        let ghost loaded = self.loaded_host_dylibs@;
        let ghost refs = self.dynamic_host_refs;
        let ghost handles = self.library_handles;
        let library = match self.library_handles.remove(handle.to_bits()) {
            None => {
                return false;
            },
            Some(library) => library,
        };
        if let OpenLibrary::Host(path) = library {
            proof {
                assert(handles.users(path@) == self.library_handles.users(path@) + 1);
                lemma_without_path(loaded, path@);
            }
            if let Some(count) = self.dynamic_host_refs.get(path) {
                self.dynamic_host_refs.set(path, count - 1);
                if count == 1 && !contains_text(&self.pinned_host_dylibs, path) {
                    self.loaded_host_dylibs = remove_path(&self.loaded_host_dylibs, path);
                }
            }
        }
        mem.free(handle);
        proof {
            assert forall|p: Seq<char>| (#[trigger] self.library_handles.users(p)) > 0 implies {
                &&& self.dynamic_host_refs.count(p) is Some
                &&& self.dynamic_host_refs.count(p).unwrap() >= self.library_handles.users(p)
                &&& lists_path(self.loaded_host_dylibs@, p)
            } by {
                assert(handles.users(p) > 0);
                assert(refs.count(p).unwrap() >= handles.users(p));
                assert(lists_path(loaded, p));
            }
        }
        true
    }
}

/// The pseudo-handle for all images. Null means the same to a lookup.
pub const RTLD_DEFAULT: u32 = 0xffff_fffe;

/// The pseudo-handle for the images after the calling one.
pub const RTLD_NEXT: u32 = 0xffff_ffff;

/// The pseudo-handle for the calling image and what it depends on.
pub const RTLD_SELF: u32 = 0xffff_fffd;

/// The pseudo-handle for the main executable.
pub const RTLD_MAIN_ONLY: u32 = 0xffff_fffb;

/// The first image whose code the address is in.
pub open spec fn image_at(bins: Seq<MachO>, addr: u32, from: int) -> Option<int>
    decreases bins.len() - from,
{
    if from >= bins.len() {
        None
    } else if bins[from].text_base <= addr < bins[from].last_segment_end {
        Some(from)
    } else {
        image_at(bins, addr, from + 1)
    }
}

fn find_image_at(bins: &[MachO], addr: u32) -> (found: Option<usize>)
    ensures
        match found {
            Some(i) => image_at(bins@, addr, 0) == Some(i as int) && i < bins@.len(),
            None => image_at(bins@, addr, 0) is None,
        },
{
    let mut i: usize = 0;
    while i < bins.len()
        invariant
            i <= bins@.len(),
            image_at(bins@, addr, 0) == image_at(bins@, addr, i as int),
        decreases bins@.len() - i,
    {
        if bins[i].text_base <= addr && addr < bins[i].last_segment_end {
            return Some(i);
        }
        i = i + 1;
    }
    None
}

/// What a lookup by handle is done among. `caller` is the address that the
/// lookup returns to, which tells what the calling image is.
pub open spec fn scope_of_handle(
    images: Images,
    handles: LibraryHandles,
    handle: u32,
    caller: u32,
) -> Option<ScopeView> {
    let bins = images.bins;
    let fuel = bins.len();
    let code_addr = (caller - caller % 2) as u32;
    if handle == 0 || handle == RTLD_DEFAULT {
        Some(ScopeView { hosts: images.loaded, guests: below(bins.len() as int) })
    } else if handle == RTLD_MAIN_ONLY {
        Some(
            ScopeView {
                hosts: Seq::empty(),
                guests: if bins.len() > 0 {
                    seq![0int]
                } else {
                    Seq::empty()
                },
            },
        )
    } else if handle == RTLD_NEXT {
        match image_at(bins, code_addr, 0) {
            Some(index) => Some(
                ScopeView {
                    hosts: images.loaded,
                    guests: Seq::new((bins.len() - index - 1) as nat, |i: int| index + 1 + i),
                },
            ),
            None => None,
        }
    } else if handle == RTLD_SELF {
        match image_at(bins, code_addr, 0) {
            Some(index) => Some(
                ScopeView::empty().with_image(images, index, fuel).with_paths(
                    images,
                    texts(bins[index].dynamic_libraries@),
                    0,
                    fuel,
                ),
            ),
            None => None,
        }
    } else {
        match handles.path(handle) {
            Some(path) => Some(ScopeView::empty().with_path(images, path, fuel)),
            None => None,
        }
    }
}

/// What a symbol was found to be.
pub enum SymbolTarget {
    /// Something in an image of the guest.
    Guest { addr: u32 },
    /// A class of the host, or its metaclass, which has to be linked.
    Class { name: String, meta: bool },
    /// A function of the host. The code may have been written just now.
    Function { function: GuestFunction },
    /// A constant of the host, which has to be made.
    Constant { constant: HostConstant },
}

/// What a symbol was found to be, before anything is made for it.
pub enum FoundSymbol<'a> {
    Guest { addr: u32 },
    Class { name: &'a str, meta: bool },
    Function { entry: &'static (&'static str, HostFunction) },
    Constant { constant: HostConstant },
}

/// What a symbol is in a scope: images of the guest come first, then classes,
/// functions and constants of the host.
pub open spec fn is_resolved(
    scope: LookupScope<'_>,
    symbol: Seq<char>,
    found: Option<FoundSymbol<'_>>,
) -> bool {
    let class = class_of_symbol(symbol);
    let address = scope.address(symbol);
    let function = first_export(scope.functions(), symbol, 0);
    let constant = first_export(scope.constants(), symbol, 0);
    if address is Some {
        found == Some(FoundSymbol::Guest { addr: address.unwrap() })
    } else if class is Some && first_export(scope.classes(), class.unwrap().0, 0) is Some {
        found matches Some(FoundSymbol::Class { name, meta }) && name@ == class.unwrap().0 && meta
            == class.unwrap().1
    } else if function is Some {
        found matches Some(FoundSymbol::Function { entry }) && *entry == function.unwrap()
    } else if constant is Some {
        found == Some(FoundSymbol::Constant { constant: constant.unwrap().1 })
    } else {
        found is None
    }
}

impl ScopeView {
    /// The function of the host that a symbol stands for, if it stands for
    /// one.
    pub open spec fn function(
        self,
        bins: Seq<MachO>,
        symbol: Seq<char>,
    ) -> Option<(&'static str, HostFunction)> {
        let class = class_of_symbol(symbol);
        let classes = self.hosts.map_values(|d: &'static HostDylib| d.class_exports);
        let functions = self.hosts.map_values(|d: &'static HostDylib| d.function_exports);
        if first_address(bins, self.guests, None, symbol, 0) is Some {
            None
        } else if class is Some && first_export(classes, class.unwrap().0, 0) is Some {
            None
        } else {
            first_export(functions, symbol, 0)
        }
    }
}

impl<'a> LookupScope<'a> {
    /// Looks a symbol up.
    pub fn resolve<'b>(&self, symbol: &'b str) -> (found: Option<FoundSymbol<'b>>)
        requires
            self.wf(),
        ensures
            is_resolved(*self, symbol@, found),
            found is Some <==> self.provides(symbol@),
    {
        if let Some(addr) = self.guest_address(symbol) {
            return Some(FoundSymbol::Guest { addr });
        }
        if let Some((name, meta)) = objc_symbol(symbol) {
            if self.search_classes(name).is_some() {
                return Some(FoundSymbol::Class { name, meta });
            }
        }
        if let Some(entry) = self.search_functions(symbol) {
            return Some(FoundSymbol::Function { entry });
        }
        match self.search_constants(symbol) {
            Some(entry) => Some(FoundSymbol::Constant { constant: entry.1 }),
            None => None,
        }
    }
}

impl Dyld {
    /// What a lookup by handle is done among.
    pub fn handle_scope<'a>(
        &self,
        handle: MutVoidPtr,
        bins: &'a [MachO],
        caller: u32,
    ) -> (scope: Option<LookupScope<'a>>)
        ensures
            match scope {
                Some(scope) => {
                    &&& scope.wf()
                    &&& scope.bins == bins
                    &&& scope.local_image is None
                    &&& scope_of_handle(
                        self.images(bins@),
                        self.library_handles,
                        handle.bits(),
                        caller,
                    ) == Some(scope.view())
                },
                None => scope_of_handle(
                    self.images(bins@),
                    self.library_handles,
                    handle.bits(),
                    caller,
                ) is None,
            },
    {
        let bits: u32 = handle.to_bits();
        let ghost images = self.images(bins@);
        let ghost fuel: nat = bins@.len();
        if bits == 0 || bits == RTLD_DEFAULT {
            return Some(self.flat_scope(bins));
        }
        let mut scope = Self::empty_scope(bins);
        if bits == RTLD_MAIN_ONLY {
            if bins.len() > 0 {
                scope.guests.push(0);
                assert(scope.view().guests =~= seq![0int]);
            }
            return Some(scope);
        }
        if bits == RTLD_NEXT || bits == RTLD_SELF {
            let code_addr: u32 = caller - caller % 2;
            let index: usize = match find_image_at(bins, code_addr) {
                None => {
                    return None;
                },
                Some(index) => index,
            };
            if bits == RTLD_NEXT {
                let count: usize = bins.len();
                scope.guests = index_range(index + 1, count);
                scope.hosts = copy_hosts(&self.loaded_host_dylibs);
                assert(scope.view().guests =~= Seq::new(
                    (bins@.len() - index - 1) as nat,
                    |i: int| index + 1 + i,
                ));
                return Some(scope);
            }
            let ghost start = scope.view();
            scope.add_image(index, &self.catalogue, &self.loaded_host_dylibs);
            assert(scope.view() == start.with_image(images, index as int, fuel));
            let ghost own = scope.view();
            let paths: &Vec<String> = &bins[index].dynamic_libraries;
            let ghost names = texts(paths@);
            let mut i: usize = 0;
            while i < paths.len()
                invariant
                    i <= paths@.len(),
                    names == texts(paths@),
                    images == self.images(bins@),
                    fuel == bins@.len(),
                    scope.wf(),
                    scope.bins == bins,
                    scope.local_image is None,
                    own.with_paths(images, names, 0, fuel) == scope.view().with_paths(
                        images,
                        names,
                        i as int,
                        fuel,
                    ),
                decreases paths@.len() - i,
            {
                let ghost before = scope.view();
                scope.add_path(paths[i].as_str(), &self.catalogue, &self.loaded_host_dylibs);
                assert(names[i as int] == paths@[i as int]@);
                assert(scope.view() == before.with_path(images, names[i as int], fuel));
                i = i + 1;
            }
            return Some(scope);
        }
        match self.library_handles.get(bits) {
            None => None,
            Some(path) => {
                let ghost start = scope.view();
                scope.add_path(path, &self.catalogue, &self.loaded_host_dylibs);
                assert(scope.view() == start.with_path(images, path@, fuel));
                Some(scope)
            },
        }
    }

    /// Looks a symbol up by handle, and makes the function for it if it is one
    /// of the host.
    pub fn dynamic_symbol(
        &mut self,
        mem: &mut Mem,
        bins: &[MachO],
        handle: MutVoidPtr,
        symbol: &str,
        caller: u32,
    ) -> (target: Option<SymbolTarget>)
        requires
            old(mem).wf(),
            old(self).can_look_up(*old(mem), bins@, handle.bits(), symbol@, caller),
        ensures
            final(mem).wf(),
            final(self).same_libraries(*old(self)),
            match scope_of_handle(
                old(self).images(bins@),
                old(self).library_handles,
                handle.bits(),
                caller,
            ) {
                None => target is None && *final(self) == *old(self) && *final(mem) == *old(mem),
                Some(view) => exists|scope: LookupScope<'_>, found: Option<FoundSymbol<'_>>|
                    {
                        &&& scope.view() == view
                        &&& scope.bins@ == bins@
                        &&& scope.local_image is None
                        &&& #[trigger] is_resolved(scope, symbol@, found)
                        &&& Self::is_target(
                            *old(self),
                            *old(mem),
                            *final(self),
                            *final(mem),
                            found,
                            target,
                        )
                    },
            },
    {
        let scope = match self.handle_scope(handle, bins, caller) {
            None => {
                return None;
            },
            Some(scope) => scope,
        };
        let found = scope.resolve(symbol);
        assert(is_resolved(scope, symbol@, found));
        match found {
            None => None,
            Some(FoundSymbol::Guest { addr }) => Some(SymbolTarget::Guest { addr }),
            Some(FoundSymbol::Class { name, meta }) => Some(
                SymbolTarget::Class { name: name.to_string(), meta },
            ),
            Some(FoundSymbol::Function { entry }) => {
                match self.proc_for_export(mem, entry) {
                    Ok(function) => Some(SymbolTarget::Function { function }),
                    Err(_) => None,
                }
            },
            Some(FoundSymbol::Constant { constant }) => Some(SymbolTarget::Constant { constant }),
        }
    }

    /// Whether there is room for the function that looking a symbol up by handle
    /// makes, if it makes one.
    pub open spec fn can_look_up(
        self,
        mem: Mem,
        bins: Seq<MachO>,
        handle: u32,
        symbol: Seq<char>,
        caller: u32,
    ) -> bool {
        match scope_of_handle(self.images(bins), self.library_handles, handle, caller) {
            None => true,
            Some(view) => view.function(bins, symbol) matches Some(entry) ==> self.can_provide(
                mem,
                entry.1,
            ),
        }
    }

    /// Whether there is room for the function that looking a symbol up by handle
    /// makes, if it makes one.
    pub fn has_room_to_look_up(
        &self,
        mem: &Mem,
        bins: &[MachO],
        handle: MutVoidPtr,
        symbol: &str,
        caller: u32,
    ) -> (yes: bool)
        requires
            mem.wf(),
        ensures
            yes == self.can_look_up(*mem, bins@, handle.bits(), symbol@, caller),
    {
        let scope = match self.handle_scope(handle, bins, caller) {
            None => {
                return true;
            },
            Some(scope) => scope,
        };
        let found = scope.resolve(symbol);
        assert(is_resolved(scope, symbol@, found));
        match found {
            Some(FoundSymbol::Function { entry }) => self.has_room_to_provide(mem, entry.1),
            _ => true,
        }
    }

    /// What is made of a symbol that was found.
    pub open spec fn is_target(
        before: Dyld,
        mem_before: Mem,
        after: Dyld,
        mem_after: Mem,
        found: Option<FoundSymbol<'_>>,
        target: Option<SymbolTarget>,
    ) -> bool {
        match found {
            Some(FoundSymbol::Function { entry }) => {
                &&& target matches Some(SymbolTarget::Function { function })
                &&& Self::is_proc(before, mem_before, after, mem_after, *entry, function)
            },
            _ => {
                &&& after == before
                &&& mem_after == mem_before
                &&& match found {
                    Some(FoundSymbol::Guest { addr }) => target == Some(
                        SymbolTarget::Guest { addr },
                    ),
                    Some(FoundSymbol::Class { name, meta }) => target matches Some(
                        SymbolTarget::Class { name: n, meta: m },
                    ) && n@ == name@ && m == meta,
                    Some(FoundSymbol::Constant { constant }) => target == Some(
                        SymbolTarget::Constant { constant },
                    ),
                    _ => target is None,
                }
            },
        }
    }
}

} // verus!
