//! What the guest has opened.
use vstd::prelude::*;

use crate::text::same_text;

verus! {

/// What a library was opened from.
#[derive(Debug)]
pub enum OpenLibrary {
    /// An image, by its name.
    Image(String),
    /// A library of the host, by its path.
    Host(&'static str),
}

impl OpenLibrary {
    /// The name or the path.
    pub open spec fn name(self) -> Seq<char> {
        match self {
            OpenLibrary::Image(name) => name@,
            OpenLibrary::Host(path) => path@,
        }
    }

    /// Whether it was opened from the library of the host with a path.
    pub open spec fn is_host(self, path: Seq<char>) -> bool {
        self matches OpenLibrary::Host(own) && own@ == path
    }

    /// The name or the path.
    pub fn as_str(&self) -> (name: &str)
        ensures
            name@ == self.name(),
    {
        match self {
            OpenLibrary::Image(name) => name.as_str(),
            OpenLibrary::Host(path) => path,
        }
    }
}

/// Libraries that the guest opened, by the address that it knows each by.
pub struct LibraryHandles {
    entries: Vec<(u32, OpenLibrary)>,
}

spec fn find_handle(entries: Seq<(u32, OpenLibrary)>, handle: u32, from: int) -> Option<OpenLibrary>
    decreases entries.len() - from,
{
    if from >= entries.len() {
        None
    } else if entries[from].0 == handle {
        Some(entries[from].1)
    } else {
        find_handle(entries, handle, from + 1)
    }
}

/// Number of the first `count` handles that were opened from a library of the
/// host.
spec fn count_handles(entries: Seq<(u32, OpenLibrary)>, path: Seq<char>, count: int) -> nat
    decreases count,
{
    if count <= 0 {
        0
    } else {
        count_handles(entries, path, count - 1) + if entries[count - 1].1.is_host(path) {
            1nat
        } else {
            0
        }
    }
}

spec fn distinct(entries: Seq<(u32, OpenLibrary)>) -> bool {
    forall|i: int, j: int|
        0 <= i < j < entries.len() ==> (#[trigger] entries[i]).0 != (#[trigger] entries[j]).0
}

impl LibraryHandles {
    /// Each handle is there once.
    pub closed spec fn wf(self) -> bool {
        distinct(self.entries@)
    }

    /// The library that a handle is for.
    pub closed spec fn library(self, handle: u32) -> Option<OpenLibrary> {
        find_handle(self.entries@, handle, 0)
    }

    /// The name of the library that a handle is for.
    pub open spec fn path(self, handle: u32) -> Option<Seq<char>> {
        match self.library(handle) {
            Some(library) => Some(library.name()),
            None => None,
        }
    }

    /// Number of handles that were opened from the library of the host with a
    /// path.
    pub closed spec fn users(self, path: Seq<char>) -> nat {
        count_handles(self.entries@, path, self.entries@.len() as int)
    }

    /// A library of the host has handles exactly if there is one that was opened
    /// from it, and they can be counted.
    pub proof fn users_bounded(self, path: Seq<char>)
        requires
            self.wf(),
        ensures
            self.users(path) <= usize::MAX,
            self.users(path) > 0 <==> exists|handle: u32|
                (#[trigger] self.library(handle)) matches Some(library) && library.is_host(path),
    {
        assert(self.entries@.len() == self.entries.len());
        self.users_bounded_upto(path, self.entries@.len() as int);
        if exists|handle: u32|
            (#[trigger] self.library(handle)) matches Some(library) && library.is_host(path) {
            let handle = choose|handle: u32|
                (#[trigger] self.library(handle)) matches Some(library) && library.is_host(path);
            lemma_found_counts(self.entries@, handle, path, 0);
        }
    }

    proof fn users_bounded_upto(self, path: Seq<char>, count: int)
        requires
            self.wf(),
            0 <= count <= self.entries@.len(),
        ensures
            count_handles(self.entries@, path, count) <= count,
            count_handles(self.entries@, path, count) > 0 ==> exists|handle: u32|
                (#[trigger] self.library(handle)) matches Some(library) && library.is_host(path),
        decreases count,
    {
        if count > 0 {
            self.users_bounded_upto(path, count - 1);
            let entry = self.entries@[count - 1];
            lemma_find_here(self.entries@, count - 1, 0);
            assert(self.library(entry.0) == Some(entry.1));
        }
    }

    pub fn new() -> (handles: Self)
        ensures
            handles.wf(),
            forall|handle: u32| (#[trigger] handles.library(handle)) is None,
            forall|path: Seq<char>| #[trigger] handles.users(path) == 0,
    {
        LibraryHandles { entries: Vec::new() }
    }

    fn position(&self, handle: u32) -> (at: Option<usize>)
        ensures
            match at {
                Some(i) => {
                    &&& i < self.entries@.len()
                    &&& self.entries@[i as int].0 == handle
                    &&& self.library(handle) == Some(self.entries@[i as int].1)
                },
                None => {
                    &&& self.library(handle) is None
                    &&& forall|k: int|
                        0 <= k < self.entries@.len() ==> (#[trigger] self.entries@[k]).0 != handle
                },
            },
    {
        let mut i: usize = 0;
        while i < self.entries.len()
            invariant
                i <= self.entries@.len(),
                find_handle(self.entries@, handle, 0) == find_handle(
                    self.entries@,
                    handle,
                    i as int,
                ),
                forall|k: int| 0 <= k < i ==> (#[trigger] self.entries@[k]).0 != handle,
            decreases self.entries@.len() - i,
        {
            if self.entries[i].0 == handle {
                return Some(i);
            }
            i = i + 1;
        }
        None
    }

    /// The name of the library that a handle is for.
    pub fn get(&self, handle: u32) -> (path: Option<&str>)
        ensures
            match path {
                Some(path) => self.path(handle) == Some(path@),
                None => self.path(handle) is None,
            },
    {
        match self.position(handle) {
            Some(i) => Some(self.entries[i].1.as_str()),
            None => None,
        }
    }

    /// Adds a handle. If it was in use, it is now for another library.
    pub fn insert(&mut self, handle: u32, library: OpenLibrary)
        requires
            old(self).wf(),
        ensures
            final(self).wf(),
            forall|other: u32| #[trigger]
                final(self).library(other) == if other == handle {
                    Some(library)
                } else {
                    old(self).library(other)
                },
            forall|path: Seq<char>| #[trigger]
                final(self).users(path) + if old(self).library(handle) matches Some(was)
                    && was.is_host(path) {
                    1nat
                } else {
                    0
                } == old(self).users(path) + if library.is_host(path) {
                    1nat
                } else {
                    0
                },
    {
        let ghost before = self.entries@;
        match self.position(handle) {
            Some(i) => {
                self.entries[i] = (handle, library);
                proof {
                    let after = self.entries@;
                    assert forall|other: u32| #[trigger]
                        self.library(other) == if other == handle {
                            Some(library)
                        } else {
                            old(self).library(other)
                        } by {
                        lemma_find_replaced(before, after, i as int, other, 0);
                    }
                    assert forall|path: Seq<char>| #[trigger]
                        self.users(path) + if before[i as int].1.is_host(path) {
                            1nat
                        } else {
                            0
                        } == old(self).users(path) + if library.is_host(path) {
                            1nat
                        } else {
                            0
                        } by {
                        lemma_count_replaced(before, after, i as int, path, before.len() as int);
                    }
                }
            },
            None => {
                self.entries.push((handle, library));
                proof {
                    let after = self.entries@;
                    assert forall|other: u32| #[trigger]
                        self.library(other) == if other == handle {
                            Some(library)
                        } else {
                            old(self).library(other)
                        } by {
                        lemma_find_pushed(before, (handle, library), other, 0);
                    }
                    assert forall|path: Seq<char>| #[trigger]
                        self.users(path) == old(self).users(path) + if library.is_host(path) {
                            1nat
                        } else {
                            0
                        } by {
                        lemma_count_same(before, after, path, before.len() as int);
                    }
                }
            },
        }
    }

    /// Takes a handle away, and returns its library.
    pub fn remove(&mut self, handle: u32) -> (library: Option<OpenLibrary>)
        requires
            old(self).wf(),
        ensures
            final(self).wf(),
            library == old(self).library(handle),
            match library {
                Some(library) => {
                    &&& forall|other: u32| #[trigger]
                        final(self).library(other) == if other == handle {
                            None
                        } else {
                            old(self).library(other)
                        }
                    &&& forall|path: Seq<char>| #[trigger]
                        final(self).users(path) + if library.is_host(path) {
                            1nat
                        } else {
                            0
                        } == old(self).users(path)
                },
                None => *final(self) == *old(self),
            },
    {
        let ghost before = self.entries@;
        match self.position(handle) {
            Some(i) => {
                let (_, library) = self.entries.remove(i);
                proof {
                    let after = self.entries@;
                    assert(after == before.remove(i as int));
                    assert forall|a: int, b: int| 0 <= a < b < after.len() implies (
                    #[trigger] after[a]).0 != (#[trigger] after[b]).0 by {
                        let a0 = if a < i {
                            a
                        } else {
                            a + 1
                        };
                        let b0 = if b < i {
                            b
                        } else {
                            b + 1
                        };
                        assert(after[a] == before[a0] && after[b] == before[b0]);
                    }
                    assert forall|other: u32| #[trigger]
                        self.library(other) == if other == handle {
                            None
                        } else {
                            old(self).library(other)
                        } by {
                        lemma_find_removed(before, i as int, other, 0);
                    }
                    assert forall|path: Seq<char>| #[trigger]
                        self.users(path) + if library.is_host(path) {
                            1nat
                        } else {
                            0
                        } == old(self).users(path) by {
                        lemma_count_removed(before, i as int, path, after.len() as int);
                    }
                }
                Some(library)
            },
            None => None,
        }
    }
}

proof fn lemma_find_replaced(
    before: Seq<(u32, OpenLibrary)>,
    after: Seq<(u32, OpenLibrary)>,
    at: int,
    other: u32,
    from: int,
)
    requires
        distinct(before),
        0 <= at < before.len(),
        after == before.update(at, after[at]),
        after[at].0 == before[at].0,
        0 <= from <= before.len(),
    ensures
        other != before[at].0 ==> find_handle(after, other, from) == find_handle(
            before,
            other,
            from,
        ),
        other == before[at].0 && from <= at ==> find_handle(after, other, from) == Some(after[at].1),
    decreases before.len() - from,
{
    if from < before.len() {
        lemma_find_replaced(before, after, at, other, from + 1);
        if from < at {
            assert(before[from].0 != before[at].0);
        }
    }
}

proof fn lemma_find_pushed(
    before: Seq<(u32, OpenLibrary)>,
    entry: (u32, OpenLibrary),
    other: u32,
    from: int,
)
    requires
        0 <= from <= before.len(),
        forall|k: int| 0 <= k < before.len() ==> (#[trigger] before[k]).0 != entry.0,
    ensures
        find_handle(before.push(entry), other, from) == if other == entry.0 {
            Some(entry.1)
        } else {
            find_handle(before, other, from)
        },
    decreases before.len() - from,
{
    let after = before.push(entry);
    if from < before.len() {
        lemma_find_pushed(before, entry, other, from + 1);
        assert(after[from] == before[from]);
    } else {
        assert(after[from] == entry);
        assert(find_handle(after, other, from + 1) is None);
    }
}

proof fn lemma_find_removed(before: Seq<(u32, OpenLibrary)>, at: int, other: u32, from: int)
    requires
        distinct(before),
        0 <= at < before.len(),
        0 <= from < before.len(),
    ensures
        from <= at ==> find_handle(before.remove(at), other, from) == if other == before[at].0 {
            None
        } else {
            find_handle(before, other, from)
        },
        from > at ==> find_handle(before.remove(at), other, from - 1) == find_handle(
            before,
            other,
            from,
        ),
    decreases before.len() - from,
{
    let after = before.remove(at);
    if from < at {
        lemma_find_removed(before, at, other, from + 1);
        assert(after[from] == before[from]);
    } else if from == at {
        if from + 1 < before.len() {
            lemma_find_removed(before, at, other, from + 1);
        }
        if other == before[at].0 {
            lemma_find_none(after, other, from);
        }
    } else {
        assert(after[from - 1] == before[from]);
        if from + 1 < before.len() {
            lemma_find_removed(before, at, other, from + 1);
        }
    }
}

proof fn lemma_find_here(entries: Seq<(u32, OpenLibrary)>, at: int, from: int)
    requires
        distinct(entries),
        0 <= from <= at < entries.len(),
    ensures
        find_handle(entries, entries[at].0, from) == Some(entries[at].1),
    decreases at - from,
{
    if from < at {
        assert(entries[from].0 != entries[at].0);
        lemma_find_here(entries, at, from + 1);
    }
}

proof fn lemma_find_none(entries: Seq<(u32, OpenLibrary)>, handle: u32, from: int)
    requires
        0 <= from <= entries.len(),
        forall|k: int| from <= k < entries.len() ==> (#[trigger] entries[k]).0 != handle,
    ensures
        find_handle(entries, handle, from) is None,
    decreases entries.len() - from,
{
    if from < entries.len() {
        lemma_find_none(entries, handle, from + 1);
    }
}

proof fn lemma_count_same(
    a: Seq<(u32, OpenLibrary)>,
    b: Seq<(u32, OpenLibrary)>,
    path: Seq<char>,
    count: int,
)
    requires
        0 <= count <= a.len(),
        count <= b.len(),
        forall|k: int| 0 <= k < count ==> #[trigger] a[k] == b[k],
    ensures
        count_handles(a, path, count) == count_handles(b, path, count),
    decreases count,
{
    if count > 0 {
        lemma_count_same(a, b, path, count - 1);
        assert(a[count - 1] == b[count - 1]);
    }
}

proof fn lemma_count_replaced(
    before: Seq<(u32, OpenLibrary)>,
    after: Seq<(u32, OpenLibrary)>,
    at: int,
    path: Seq<char>,
    count: int,
)
    requires
        0 <= at < before.len(),
        after == before.update(at, after[at]),
        0 <= count <= before.len(),
    ensures
        count > at ==> count_handles(after, path, count) + if before[at].1.is_host(path) {
            1nat
        } else {
            0
        } == count_handles(before, path, count) + if after[at].1.is_host(path) {
            1nat
        } else {
            0
        },
        count <= at ==> count_handles(after, path, count) == count_handles(before, path, count),
    decreases count,
{
    if count > 0 {
        lemma_count_replaced(before, after, at, path, count - 1);
    }
}

proof fn lemma_count_removed(
    before: Seq<(u32, OpenLibrary)>,
    at: int,
    path: Seq<char>,
    count: int,
)
    requires
        0 <= at < before.len(),
        0 <= count < before.len(),
    ensures
        count <= at ==> count_handles(before.remove(at), path, count) == count_handles(
            before,
            path,
            count,
        ),
        count >= at ==> count_handles(before.remove(at), path, count) + if before[at].1.is_host(path) {
            1nat
        } else {
            0
        } == count_handles(before, path, count + 1),
    decreases count,
{
    let after = before.remove(at);
    if count > 0 {
        lemma_count_removed(before, at, path, count - 1);
        if count - 1 < at {
            assert(after[count - 1] == before[count - 1]);
        } else {
            assert(after[count - 1] == before[count]);
        }
    }
    assert(count_handles(before, path, count + 1) == count_handles(before, path, count) + if before[count].1.is_host(
        path,
    ) {
        1nat
    } else {
        0
    });
}

proof fn lemma_found_counts(
    entries: Seq<(u32, OpenLibrary)>,
    handle: u32,
    path: Seq<char>,
    from: int,
)
    requires
        0 <= from <= entries.len(),
        find_handle(entries, handle, from) matches Some(library) && library.is_host(path),
    ensures
        count_handles(entries, path, entries.len() as int) > 0,
    decreases entries.len() - from,
{
    if entries[from].0 == handle {
        lemma_counts_here(entries, path, from, entries.len() as int);
    } else {
        lemma_found_counts(entries, handle, path, from + 1);
    }
}

proof fn lemma_counts_here(
    entries: Seq<(u32, OpenLibrary)>,
    path: Seq<char>,
    at: int,
    count: int,
)
    requires
        0 <= at < count <= entries.len(),
        entries[at].1.is_host(path),
    ensures
        count_handles(entries, path, count) > 0,
    decreases count,
{
    if at < count - 1 {
        lemma_counts_here(entries, path, at, count - 1);
    }
}

/// How often libraries of the host are open.
pub struct HostRefs {
    entries: Vec<(&'static str, u128)>,
}

spec fn find_ref(entries: Seq<(&'static str, u128)>, path: Seq<char>, from: int) -> Option<u128>
    decreases entries.len() - from,
{
    if from >= entries.len() {
        None
    } else if entries[from].0@ == path {
        Some(entries[from].1)
    } else {
        find_ref(entries, path, from + 1)
    }
}

impl HostRefs {
    /// How often a library is open. One that was never opened has no count.
    pub closed spec fn count(self, path: Seq<char>) -> Option<u128> {
        find_ref(self.entries@, path, 0)
    }

    pub fn new() -> (refs: Self)
        ensures
            forall|path: Seq<char>| (#[trigger] refs.count(path)) is None,
    {
        HostRefs { entries: Vec::new() }
    }

    fn position(&self, path: &str) -> (at: Option<usize>)
        ensures
            match at {
                Some(i) => {
                    &&& i < self.entries@.len()
                    &&& self.entries@[i as int].0@ == path@
                    &&& self.count(path@) == Some(self.entries@[i as int].1)
                    &&& forall|k: int| 0 <= k < i ==> (#[trigger] self.entries@[k]).0@ != path@
                },
                None => {
                    &&& self.count(path@) is None
                    &&& forall|k: int|
                        0 <= k < self.entries@.len() ==> (#[trigger] self.entries@[k]).0@ != path@
                },
            },
    {
        let mut i: usize = 0;
        while i < self.entries.len()
            invariant
                i <= self.entries@.len(),
                find_ref(self.entries@, path@, 0) == find_ref(self.entries@, path@, i as int),
                forall|k: int| 0 <= k < i ==> (#[trigger] self.entries@[k]).0@ != path@,
            decreases self.entries@.len() - i,
        {
            if same_text(self.entries[i].0, path) {
                return Some(i);
            }
            i = i + 1;
        }
        None
    }

    /// How often a library is open. One that was never opened has no count.
    pub fn get(&self, path: &str) -> (count: Option<u128>)
        ensures
            count == self.count(path@),
    {
        match self.position(path) {
            Some(i) => Some(self.entries[i].1),
            None => None,
        }
    }

    /// Notes how often a library is open.
    pub fn set(&mut self, path: &'static str, count: u128)
        ensures
            forall|other: Seq<char>| #[trigger]
                final(self).count(other) == if other == path@ {
                    Some(count)
                } else {
                    old(self).count(other)
                },
    {
        let ghost before = self.entries@;
        match self.position(path) {
            Some(i) => {
                self.entries[i] = (path, count);
                proof {
                    assert forall|other: Seq<char>| #[trigger]
                        self.count(other) == if other == path@ {
                            Some(count)
                        } else {
                            old(self).count(other)
                        } by {
                        lemma_ref_replaced(before, self.entries@, i as int, other, 0);
                    }
                }
            },
            None => {
                self.entries.push((path, count));
                proof {
                    assert forall|other: Seq<char>| #[trigger]
                        self.count(other) == if other == path@ {
                            Some(count)
                        } else {
                            old(self).count(other)
                        } by {
                        lemma_ref_pushed(before, (path, count), other, 0);
                    }
                }
            },
        }
    }
}

proof fn lemma_ref_replaced(
    before: Seq<(&'static str, u128)>,
    after: Seq<(&'static str, u128)>,
    at: int,
    other: Seq<char>,
    from: int,
)
    requires
        0 <= at < before.len(),
        after == before.update(at, after[at]),
        after[at].0@ == before[at].0@,
        forall|k: int| 0 <= k < at ==> (#[trigger] before[k]).0@ != before[at].0@,
        0 <= from <= before.len(),
    ensures
        other != before[at].0@ ==> find_ref(after, other, from) == find_ref(before, other, from),
        other == before[at].0@ && from <= at ==> find_ref(after, other, from) == Some(after[at].1),
    decreases before.len() - from,
{
    if from < before.len() {
        lemma_ref_replaced(before, after, at, other, from + 1);
        if from < at {
            assert(before[from].0@ != before[at].0@);
        }
    }
}

proof fn lemma_ref_pushed(
    before: Seq<(&'static str, u128)>,
    entry: (&'static str, u128),
    other: Seq<char>,
    from: int,
)
    requires
        0 <= from <= before.len(),
        forall|k: int| 0 <= k < before.len() ==> (#[trigger] before[k]).0@ != entry.0@,
    ensures
        find_ref(before.push(entry), other, from) == if other == entry.0@ {
            Some(entry.1)
        } else {
            find_ref(before, other, from)
        },
    decreases before.len() - from,
{
    let after = before.push(entry);
    if from < before.len() {
        lemma_ref_pushed(before, entry, other, from + 1);
        assert(after[from] == before[from]);
    } else {
        assert(after[from] == entry);
        assert(find_ref(after, other, from + 1) is None);
    }
}

} // verus!
