use touchhle::dyld::{Dyld, HostConstant, HostDylib, HostFunction};
use touchhle::mach_o::{ImportInfo, LibraryOrdinal, MachO};
use touchhle::mem::Mem;

const A: HostDylib = HostDylib {
    path: "/A",
    aliases: &["/alias-A"],
    class_exports: &[],
    function_exports: &[],
    constant_exports: &[&[("_shared", HostConstant::NullPtr), ("_only_a", HostConstant::NullPtr)]],
};
const B: HostDylib = HostDylib {
    path: "/B",
    aliases: &[],
    class_exports: &[],
    function_exports: &[],
    constant_exports: &[&[("_shared", HostConstant::NSString("B"))]],
};

fn dyld() -> Dyld {
    Dyld::new(vec![&A, &B])
}

fn image(name: &str, deps: &[&str]) -> MachO {
    MachO {
        name: name.into(),
        install_name: Some(name.into()),
        dynamic_libraries: deps.iter().map(|s| s.to_string()).collect(),
        ..Default::default()
    }
}

fn import(ordinal: LibraryOrdinal) -> ImportInfo {
    ImportInfo { ordinal, weak: false }
}

#[test]
fn duplicate_names_are_resolved_by_importing_library_ordinal() {
    let mut dyld = dyld();
    dyld.loaded_host_dylibs = vec![&A, &B];
    let bins = vec![image("main", &["/A", "/B"]), image("other", &["/B", "/A"])];
    let a = dyld.lookup_scope(0, &bins, import(LibraryOrdinal::Dependency(1)));
    let b = dyld.lookup_scope(1, &bins, import(LibraryOrdinal::Dependency(1)));
    assert!(matches!(a.search_host(|d| d.constant_exports, "_shared").unwrap().1, HostConstant::NullPtr));
    assert!(matches!(b.search_host(|d| d.constant_exports, "_shared").unwrap().1, HostConstant::NSString("B")));
    assert!(!b.has_symbol("_only_a")); // No fallback into a different library.
}

#[test]
fn flat_lookup_only_sees_loaded_libraries() {
    let mut dyld = dyld();
    let bins = vec![image("main", &["/A"])];
    let scope = dyld.lookup_scope(0, &bins, ImportInfo::default());
    assert!(!scope.has_symbol("_only_a"));
    dyld.loaded_host_dylibs.push(&A);
    assert!(dyld.lookup_scope(0, &bins, ImportInfo::default()).has_symbol("_only_a"));
}

#[test]
fn aliases_and_invalid_ordinals() {
    let mut dyld = dyld();
    dyld.loaded_host_dylibs.push(&A);
    let bins = vec![image("main", &["/alias-A"])];
    assert!(dyld.lookup_scope(0, &bins, import(LibraryOrdinal::Dependency(1))).has_symbol("_only_a"));
    for ordinal in [LibraryOrdinal::Dependency(0), LibraryOrdinal::Dependency(2), LibraryOrdinal::Invalid] {
        assert!(!dyld.lookup_scope(0, &bins, import(ordinal)).has_symbol("_only_a"));
    }
}

#[test]
fn guest_self_main_and_reexports_with_cycles() {
    let mut main = image("main", &["/facade"]);
    main.exported_symbols.insert("_shared".into(), 0x1000);
    let mut facade = image("/facade", &["/implementation"]);
    facade.reexported_libraries.push("/implementation".into());
    let mut implementation = image("/implementation", &["/facade"]);
    implementation.reexported_libraries.push("/facade".into());
    implementation.exported_symbols.insert("_shared".into(), 0x9000);
    let bins = vec![main, facade, implementation];
    let dyld = dyld();
    let dep = dyld.lookup_scope(0, &bins, import(LibraryOrdinal::Dependency(1)));
    assert_eq!(dep.guest_address("_shared"), Some(0x9000));
    assert_eq!(dep.guests.len(), 2);
    let self_scope = dyld.lookup_scope(2, &bins, import(LibraryOrdinal::SelfImage));
    assert_eq!(self_scope.guest_address("_shared"), Some(0x9000));
    let main_scope = dyld.lookup_scope(2, &bins, import(LibraryOrdinal::MainExecutable));
    assert_eq!(main_scope.guest_address("_shared"), Some(0x1000));
}

#[test]
fn handles_are_owned_and_reference_counted() {
    let mut dyld = dyld();
    let mut mem = Mem::new();
    mem.set_null_segment_size(0x1000);
    let library = &A;
    let path = library.path.to_string();
    let first = dyld.open_library(&path, &[], &mut mem).unwrap();
    let second = dyld.open_library(&path, &[], &mut mem).unwrap();
    drop(path);
    assert_eq!(dyld.library_handles.get(first.to_bits()), Some(library.path));
    assert!(dyld.close_library(first, &mut mem));
    assert!(!dyld.close_library(first, &mut mem));
    assert!(dyld.loaded_host_dylibs.iter().any(|d| d.path == library.path));
    assert!(dyld.close_library(second, &mut mem));
    assert!(!dyld.loaded_host_dylibs.iter().any(|d| d.path == library.path));
}

#[test]
fn closing_handle_does_not_unload_link_time_dependency() {
    let mut dyld = dyld();
    let mut mem = Mem::new();
    mem.set_null_segment_size(0x1000);
    let library = &A;
    let bins = vec![image("main", &[library.path])];
    dyld.register_loaded_images(&bins);
    let handle = dyld.open_library(library.path, &bins, &mut mem).unwrap();
    assert!(dyld.close_library(handle, &mut mem));
    assert!(dyld.loaded_host_dylibs.iter().any(|d| d.path == library.path));
}

#[test]
fn private_symbols_do_not_escape_their_image() {
    let main = image("main", &["/library"]);
    let mut library = image("/library", &[]);
    library.exported_symbols.insert("_private".into(), 0x8000);
    library.private_symbols.insert("_private".into());
    let bins = vec![main, library];
    let dyld = dyld();
    assert_eq!(dyld.lookup_scope(0, &bins, import(LibraryOrdinal::Dependency(1))).guest_address("_private"), None);
    assert_eq!(dyld.lookup_scope(1, &bins, import(LibraryOrdinal::SelfImage)).guest_address("_private"), Some(0x8000));
}

#[test]
fn main_executable_can_force_flat_lookup() {
    let mut main = image("main", &["/library"]);
    main.force_flat_namespace = true;
    main.exported_symbols.insert("_shared".into(), 0x1000);
    let mut library = image("/library", &[]);
    library.exported_symbols.insert("_shared".into(), 0x8000);
    let bins = vec![main, library];
    let dyld = dyld();
    assert_eq!(dyld.lookup_scope(0, &bins, import(LibraryOrdinal::Dependency(1))).guest_address("_shared"), Some(0x1000));
}

#[test]
fn function_cache_does_not_merge_different_exports_with_the_same_name() {
    const FIRST: (&str, HostFunction) = ("_collision", HostFunction(1));
    const SECOND: (&str, HostFunction) = ("_collision", HostFunction(2));
    let (first, second) = (&FIRST, &SECOND);
    let mut dyld = dyld();
    let mut mem = Mem::new();
    mem.set_null_segment_size(0x1000);
    let a = dyld.proc_for_export(&mut mem, first).unwrap();
    let b = dyld.proc_for_export(&mut mem, second).unwrap();
    assert_ne!(a.addr_with_thumb_bit(), b.addr_with_thumb_bit());
    assert_eq!(dyld.proc_for_export(&mut mem, first).unwrap().addr_with_thumb_bit(), a.addr_with_thumb_bit());
}
