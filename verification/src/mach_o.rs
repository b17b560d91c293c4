//! What is known of an executable or library that was loaded for the guest.
use vstd::prelude::*;

use crate::text::same_text;

verus! {

/// Which image an imported symbol comes from.
#[derive(Clone, Copy, Debug, PartialEq, Eq, Structural)]
pub enum LibraryOrdinal {
    /// Any image.
    Flat,
    /// The image that imports it.
    SelfImage,
    MainExecutable,
    /// One of the libraries that the image depends on, counted from 1.
    Dependency(usize),
    Invalid,
}

/// How a symbol is imported.
#[derive(Clone, Copy, Debug, PartialEq, Eq, Structural)]
pub struct ImportInfo {
    pub ordinal: LibraryOrdinal,
    /// Whether the symbol may be missing.
    pub weak: bool,
}

impl Default for ImportInfo {
    fn default() -> (import: Self)
        ensures
            import == (ImportInfo { ordinal: LibraryOrdinal::Flat, weak: false }),
    {
        ImportInfo { ordinal: LibraryOrdinal::Flat, weak: false }
    }
}

/// Symbols and their addresses.
pub struct SymbolTable {
    entries: Vec<(String, u32)>,
}

spec fn find_symbol(entries: Seq<(String, u32)>, name: Seq<char>, from: int) -> Option<u32>
    decreases entries.len() - from,
{
    if from >= entries.len() {
        None
    } else if entries[from].0@ == name {
        Some(entries[from].1)
    } else {
        find_symbol(entries, name, from + 1)
    }
}

impl SymbolTable {
    /// The address of a symbol.
    pub closed spec fn address(self, name: Seq<char>) -> Option<u32> {
        find_symbol(self.entries@, name, 0)
    }

    pub fn new() -> (table: Self)
        ensures
            forall|name: Seq<char>| (#[trigger] table.address(name)) is None,
    {
        SymbolTable { entries: Vec::new() }
    }

    fn position(&self, name: &str) -> (at: Option<usize>)
        ensures
            match at {
                Some(i) => i < self.entries@.len() && self.entries@[i as int].0@ == name@ && forall|
                    k: int,
                |
                    0 <= k < i ==> (#[trigger] self.entries@[k]).0@ != name@,
                None => forall|k: int|
                    0 <= k < self.entries@.len() ==> (#[trigger] self.entries@[k]).0@ != name@,
            },
    {
        let mut i: usize = 0;
        while i < self.entries.len()
            invariant
                i <= self.entries@.len(),
                forall|k: int| 0 <= k < i ==> (#[trigger] self.entries@[k]).0@ != name@,
            decreases self.entries@.len() - i,
        {
            if same_text(self.entries[i].0.as_str(), name) {
                return Some(i);
            }
            i = i + 1;
        }
        None
    }

    /// The address of a symbol, if it is in the table.
    pub fn get(&self, name: &str) -> (addr: Option<u32>)
        ensures
            addr == self.address(name@),
    {
        match self.position(name) {
            Some(i) => {
                proof {
                    lemma_find_at(self.entries@, name@, 0, i as int);
                }
                Some(self.entries[i].1)
            },
            None => {
                proof {
                    lemma_find_at(self.entries@, name@, 0, self.entries@.len() as int);
                }
                None
            },
        }
    }

    /// Adds a symbol, or changes its address.
    pub fn insert(&mut self, name: String, addr: u32)
        ensures
            forall|other: Seq<char>| #[trigger]
                final(self).address(other) == if other == name@ {
                    Some(addr)
                } else {
                    old(self).address(other)
                },
    {
        match self.position(name.as_str()) {
            Some(i) => {
                self.entries[i] = (name, addr);
                proof {
                    assert forall|other: Seq<char>| #[trigger]
                        self.address(other) == if other == name@ {
                            Some(addr)
                        } else {
                            old(self).address(other)
                        } by {
                        if other == name@ {
                            assert forall|k: int| 0 <= k < i implies (
                            #[trigger] self.entries@[k]).0@ != name@ by {
                                assert(self.entries@[k] == old(self).entries@[k]);
                            }
                            lemma_find_at(self.entries@, name@, 0, i as int);
                        } else {
                            lemma_find_changed(
                                old(self).entries@,
                                self.entries@,
                                other,
                                i as int,
                                0,
                            );
                        }
                    }
                }
            },
            None => {
                self.entries.push((name, addr));
                proof {
                    let count = old(self).entries@.len() as int;
                    assert forall|other: Seq<char>| #[trigger]
                        self.address(other) == if other == name@ {
                            Some(addr)
                        } else {
                            old(self).address(other)
                        } by {
                        if other == name@ {
                            assert forall|k: int| 0 <= k < count implies (
                            #[trigger] self.entries@[k]).0@ != name@ by {
                                assert(self.entries@[k] == old(self).entries@[k]);
                            }
                            lemma_find_at(self.entries@, name@, 0, count);
                        } else {
                            lemma_find_pushed(old(self).entries@, self.entries@, other, 0);
                        }
                    }
                }
            },
        }
    }
}

proof fn lemma_find_at(entries: Seq<(String, u32)>, name: Seq<char>, from: int, at: int)
    requires
        0 <= from <= at <= entries.len(),
        forall|k: int| from <= k < at ==> (#[trigger] entries[k]).0@ != name,
        at < entries.len() ==> entries[at].0@ == name,
    ensures
        find_symbol(entries, name, from) == if at < entries.len() {
            Some(entries[at].1)
        } else {
            None
        },
    decreases at - from,
{
    if from < at {
        lemma_find_at(entries, name, from + 1, at);
    }
}

proof fn lemma_find_changed(
    before: Seq<(String, u32)>,
    after: Seq<(String, u32)>,
    name: Seq<char>,
    at: int,
    from: int,
)
    requires
        0 <= from <= before.len(),
        before.len() == after.len(),
        forall|k: int| 0 <= k < before.len() && k != at ==> before[k] == #[trigger] after[k],
        0 <= at < before.len(),
        before[at].0@ != name,
        after[at].0@ != name,
    ensures
        find_symbol(before, name, from) == find_symbol(after, name, from),
    decreases before.len() - from,
{
    if from < before.len() {
        lemma_find_changed(before, after, name, at, from + 1);
        if from != at {
            assert(before[from] == after[from]);
        }
    }
}

proof fn lemma_find_pushed(
    before: Seq<(String, u32)>,
    after: Seq<(String, u32)>,
    name: Seq<char>,
    from: int,
)
    requires
        0 <= from <= before.len(),
        after.len() == before.len() + 1,
        forall|k: int| 0 <= k < before.len() ==> before[k] == #[trigger] after[k],
        after.last().0@ != name,
    ensures
        find_symbol(before, name, from) == find_symbol(after, name, from),
    decreases before.len() - from,
{
    if from < before.len() {
        lemma_find_pushed(before, after, name, from + 1);
        assert(before[from] == after[from]);
    } else {
        assert(find_symbol(after, name, from + 1) is None);
    }
}

/// Names of symbols.
pub struct SymbolNames {
    names: Vec<String>,
}

impl SymbolNames {
    /// Whether a name is among them.
    pub closed spec fn has(self, name: Seq<char>) -> bool {
        exists|i: int| 0 <= i < self.names@.len() && (#[trigger] self.names@[i])@ == name
    }

    pub fn new() -> (names: Self)
        ensures
            forall|name: Seq<char>| !#[trigger] names.has(name),
    {
        SymbolNames { names: Vec::new() }
    }

    pub fn contains(&self, name: &str) -> (yes: bool)
        ensures
            yes == self.has(name@),
    {
        let mut i: usize = 0;
        while i < self.names.len()
            invariant
                i <= self.names@.len(),
                forall|k: int| 0 <= k < i ==> (#[trigger] self.names@[k])@ != name@,
            decreases self.names@.len() - i,
        {
            if same_text(self.names[i].as_str(), name) {
                return true;
            }
            i = i + 1;
        }
        false
    }

    pub fn insert(&mut self, name: String)
        ensures
            forall|other: Seq<char>| #[trigger]
                final(self).has(other) == (other == name@ || old(self).has(other)),
    {
        self.names.push(name);
        proof {
            let before = old(self).names@;
            assert forall|other: Seq<char>| #[trigger]
                self.has(other) == (other == name@ || old(self).has(other)) by {
                if old(self).has(other) {
                    let i = choose|i: int| 0 <= i < before.len() && (#[trigger] before[i])@ == other;
                    assert(self.names@[i]@ == other);
                }
                assert(self.names@[before.len() as int] == name);
            }
        }
    }
}

/// An executable or library that was loaded for the guest.
pub struct MachO {
    pub name: String,
    /// The path under which other images know a library.
    pub install_name: Option<String>,
    /// Paths of the libraries that this image depends on.
    pub dynamic_libraries: Vec<String>,
    /// Paths of the libraries whose symbols this image passes off as its own.
    pub reexported_libraries: Vec<String>,
    pub exported_symbols: SymbolTable,
    /// Symbols that other images don't see.
    pub private_symbols: SymbolNames,
    /// Whether all images look up symbols in all images. This is up to the
    /// main executable.
    pub force_flat_namespace: bool,
    /// Where the code starts.
    pub text_base: u32,
    pub last_segment_end: u32,
}

impl Default for MachO {
    fn default() -> (image: Self)
        ensures
            image.name@ == Seq::<char>::empty(),
            image.install_name is None,
            image.dynamic_libraries@ == Seq::<String>::empty(),
            image.reexported_libraries@ == Seq::<String>::empty(),
            forall|name: Seq<char>| (#[trigger] image.exported_symbols.address(name)) is None,
            forall|name: Seq<char>| !#[trigger] image.private_symbols.has(name),
            !image.force_flat_namespace,
            image.text_base == 0,
            image.last_segment_end == 0,
    {
        let name = String::new();
        assert(name@ =~= Seq::<char>::empty());
        MachO {
            name,
            install_name: None,
            dynamic_libraries: Vec::new(),
            reexported_libraries: Vec::new(),
            exported_symbols: SymbolTable::new(),
            private_symbols: SymbolNames::new(),
            force_flat_namespace: false,
            text_base: 0,
            last_segment_end: 0,
        }
    }
}

} // verus!
