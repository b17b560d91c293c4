use touchhle::dyld::symbol_lookup::{
    objc_symbol, FoundSymbol, SymbolTarget, RTLD_DEFAULT, RTLD_MAIN_ONLY, RTLD_NEXT, RTLD_SELF,
};
use touchhle::dyld::{
    has_own_numbers, Dyld, HostClass, HostConstant, HostDylib, HostFunction, INSTR_RETURN,
    INSTR_SVC,
};
use touchhle::libc::dlfcn::{dlclose, dlerror, dlopen, dlsym, has_room_to_find, has_room_to_open};
use touchhle::mach_o::{ImportInfo, LibraryOrdinal, MachO};
use touchhle::mem::{ConstPtr, Mem, MutPtr, MutVoidPtr, Ptr};

const KIT: HostDylib = HostDylib {
    path: "/System/Kit",
    aliases: &["/Kit-alias", "/Kit-other"],
    class_exports: &[&[("KitView", HostClass(1))]],
    function_exports: &[&[("_first", HostFunction(10))], &[("_second", HostFunction(11)), ("_first", HostFunction(12))]],
    constant_exports: &[&[("_kConstant", HostConstant::NSString("text")), ("_OBJC_CLASS_$_KitView", HostConstant::NullPtr)]],
};
const OTHER: HostDylib = HostDylib {
    path: "/System/Other",
    aliases: &[],
    class_exports: &[],
    function_exports: &[&[("_first", HostFunction(20))]],
    constant_exports: &[&[("_kCustom", HostConstant::Custom(3))]],
};

fn dyld() -> Dyld {
    Dyld::new(vec![&KIT, &OTHER])
}

fn memory() -> Mem {
    let mut mem = Mem::new();
    mem.set_null_segment_size(0x1000);
    mem
}

fn image(name: &str, deps: &[&str]) -> MachO {
    MachO {
        name: name.into(),
        install_name: Some(name.into()),
        dynamic_libraries: deps.iter().map(|s| s.to_string()).collect(),
        ..Default::default()
    }
}

#[test]
fn class_symbols_are_taken_apart() {
    assert_eq!(objc_symbol("_OBJC_CLASS_$_Foo"), Some(("Foo", false)));
    assert_eq!(objc_symbol("_OBJC_METACLASS_$_Foo"), Some(("Foo", true)));
    assert_eq!(objc_symbol("_OBJC_CLASS_$_"), Some(("", false)));
    assert_eq!(objc_symbol("OBJC_CLASS_$_Foo"), None);
    assert_eq!(objc_symbol("_OBJC"), None);
}

#[test]
fn scopes_resolve_by_kind_of_symbol() {
    let mut dyld = dyld();
    dyld.loaded_host_dylibs = vec![&KIT, &OTHER];
    let mut main = image("main", &[]);
    main.exported_symbols.insert("_second".into(), 0x2000);
    main.exported_symbols.insert("_second".into(), 0x3000);
    let bins = vec![main];
    let scope = dyld.lookup_scope(0, &bins, ImportInfo::default());
    assert!(matches!(scope.resolve("_second"), Some(FoundSymbol::Guest { addr: 0x3000 })));
    assert!(matches!(
        scope.resolve("_OBJC_CLASS_$_KitView"),
        Some(FoundSymbol::Class { name: "KitView", meta: false })
    ));
    assert!(matches!(
        scope.resolve("_OBJC_METACLASS_$_KitView"),
        Some(FoundSymbol::Class { name: "KitView", meta: true })
    ));
    assert!(matches!(scope.resolve("_first"), Some(FoundSymbol::Function { entry: ("_first", HostFunction(10)) })));
    assert!(matches!(
        scope.resolve("_kCustom"),
        Some(FoundSymbol::Constant { constant: HostConstant::Custom(3) })
    ));
    assert!(scope.resolve("_missing").is_none());
    assert!(scope.resolve("_OBJC_CLASS_$_Missing").is_none());
    assert!(scope.has_symbol("_OBJC_METACLASS_$_KitView"));
    assert!(!scope.has_symbol("_missing"));
    assert_eq!(scope.search_host(|d| d.class_exports, "KitView").unwrap().1, HostClass(1));
}

#[test]
fn images_without_install_name_go_by_their_file_name() {
    let dyld = dyld();
    let main = image("main", &["/usr/lib/libtool.dylib", "/System/Kit"]);
    let mut tool = image("libtool.dylib", &[]);
    tool.install_name = None;
    tool.exported_symbols.insert("_tool".into(), 0x4000);
    // An image that stands in for a library of the host, under another name.
    let mut kit = image("/Kit-alias", &[]);
    kit.exported_symbols.insert("_own".into(), 0x5000);
    let bins = vec![main, tool, kit];
    let scope = dyld.lookup_scope(0, &bins, ImportInfo { ordinal: LibraryOrdinal::Dependency(1), weak: false });
    assert_eq!(scope.guest_address("_tool"), Some(0x4000));
    let scope = dyld.lookup_scope(0, &bins, ImportInfo { ordinal: LibraryOrdinal::Dependency(2), weak: true });
    assert_eq!(scope.guest_address("_own"), Some(0x5000));
    assert_eq!(scope.guests, [2]);
}

#[test]
fn functions_call_the_host() {
    let mut dyld = dyld();
    let mut mem = memory();
    dyld.loaded_host_dylibs = vec![&OTHER];
    let bins = vec![image("main", &[])];
    let scope = dyld.lookup_scope(0, &bins, ImportInfo::default());
    let function = dyld.scoped_proc_address(&mut mem, &scope, "_first").unwrap();
    let code: MutPtr<u32> = Ptr::from_bits(function.addr_with_thumb_bit());
    assert_eq!(mem.read(code), INSTR_SVC + 2);
    assert_eq!(mem.read(code + 1), INSTR_RETURN);
    assert_eq!(function.to_ptr().to_bits(), code.to_bits());
    assert_eq!(dyld.linked_host_functions, [("_first", HostFunction(20))]);
    assert!(dyld.scoped_proc_address(&mut mem, &scope, "_second").is_err());
    let again = dyld.scoped_proc_address(&mut mem, &scope, "_first").unwrap();
    assert_eq!(again, function);
    assert_eq!(dyld.linked_host_functions.len(), 1);
}

#[test]
fn registering_skips_what_images_provide() {
    let mut dyld = dyld();
    let bins = vec![image("main", &["/Kit-other", "/System/Other", "/nowhere"]), image("/System/Other", &[])];
    dyld.register_loaded_images(&bins);
    let paths: Vec<&str> = dyld.loaded_host_dylibs.iter().map(|d| d.path).collect();
    assert_eq!(paths, ["/System/Kit"]);
    assert_eq!(dyld.pinned_host_dylibs, ["/System/Kit"]);
    dyld.register_loaded_images(&bins);
    assert_eq!(dyld.loaded_host_dylibs.len(), 1);
}

#[test]
fn opening_prefers_images() {
    let mut dyld = dyld();
    let mut mem = memory();
    let bins = vec![image("main", &[]), image("/System/Kit", &[])];
    let handle = dyld.open_library("/Kit-alias", &bins, &mut mem).unwrap();
    assert_eq!(dyld.library_handles.get(handle.to_bits()), Some("/System/Kit"));
    assert!(dyld.loaded_host_dylibs.is_empty());
    assert_eq!(dyld.dynamic_host_refs.get("/System/Kit"), None);
    assert!(dyld.open_library("/nowhere", &bins, &mut mem).is_none());
    assert!(dyld.close_library(handle, &mut mem));
    assert!(!mem.is_known_allocation(handle.to_bits()));
    let other = dyld.open_library("/System/Other", &bins, &mut mem).unwrap();
    assert_eq!(dyld.dynamic_host_refs.get("/System/Other"), Some(1));
    assert!(dyld.close_library(other, &mut mem));
    assert_eq!(dyld.dynamic_host_refs.get("/System/Other"), Some(0));
}

fn guests(bins: &[MachO], dyld: &Dyld, handle: u32, caller: u32) -> Option<Vec<usize>> {
    dyld.handle_scope(Ptr::from_bits(handle), bins, caller).map(|scope| scope.guests)
}

#[test]
fn pseudo_handles_choose_their_images() {
    let mut dyld = dyld();
    dyld.loaded_host_dylibs = vec![&KIT];
    let mut bins = vec![image("main", &["/b", "/System/Kit"]), image("/a", &[]), image("/b", &[])];
    for (i, bin) in bins.iter_mut().enumerate() {
        bin.text_base = 0x1000 * (i as u32 + 1);
        bin.last_segment_end = bin.text_base + 0x1000;
    }
    assert_eq!(guests(&bins, &dyld, 0, 0), Some(vec![0, 1, 2]));
    assert_eq!(guests(&bins, &dyld, RTLD_DEFAULT, 0), Some(vec![0, 1, 2]));
    assert_eq!(guests(&bins, &dyld, RTLD_MAIN_ONLY, 0), Some(vec![0]));
    assert_eq!(guests(&[], &dyld, RTLD_MAIN_ONLY, 0), Some(vec![]));
    assert_eq!(guests(&bins, &dyld, RTLD_NEXT, 0x1fff), Some(vec![1, 2]));
    assert_eq!(guests(&bins, &dyld, RTLD_NEXT, 0x2001), Some(vec![2]));
    assert_eq!(guests(&bins, &dyld, RTLD_NEXT, 0x9000), None);
    assert_eq!(guests(&bins, &dyld, RTLD_SELF, 0x1000), Some(vec![0, 2]));
    let scope = dyld.handle_scope(Ptr::from_bits(RTLD_SELF), &bins, 0x1000).unwrap();
    assert_eq!(scope.hosts.len(), 1);
    assert_eq!(guests(&bins, &dyld, 0x1234, 0x1000), None);
}

#[test]
fn dlfcn_opens_looks_up_and_closes() {
    let mut dyld = dyld();
    let mut mem = memory();
    let bins = vec![image("main", &[])];
    let null: ConstPtr<u8> = Ptr::null();
    assert_eq!(dlopen(&mut dyld, &bins, &mut mem, null).to_bits(), RTLD_DEFAULT);
    let path = mem.alloc_and_write_cstr(b"/Kit-alias").cast_const();
    let bad = mem.alloc_and_write_cstr(&[0xff]).cast_const();
    let missing = mem.alloc_and_write_cstr(b"/nowhere").cast_const();
    assert!(dlopen(&mut dyld, &bins, &mut mem, bad).is_null());
    assert!(dlopen(&mut dyld, &bins, &mut mem, missing).is_null());
    let handle = dlopen(&mut dyld, &bins, &mut mem, path);
    assert!(!handle.is_null());

    let name = mem.alloc_and_write_cstr(b"second").cast_const();
    let target = dlsym(&mut dyld, &bins, &mut mem, handle, name, 0);
    let Some(SymbolTarget::Function { function }) = target else { panic!("not a function") };
    assert_eq!(mem.read(Ptr::<u32, true>::from_bits(function.addr)), INSTR_SVC + 2);
    let constant = mem.alloc_and_write_cstr(b"kConstant").cast_const();
    assert!(matches!(
        dlsym(&mut dyld, &bins, &mut mem, handle, constant, 0),
        Some(SymbolTarget::Constant { constant: HostConstant::NSString("text") })
    ));
    let class = mem.alloc_and_write_cstr(b"OBJC_CLASS_$_KitView").cast_const();
    let target = dlsym(&mut dyld, &bins, &mut mem, handle, class, 0);
    let Some(SymbolTarget::Class { name: class_name, meta: false }) = target else { panic!("not a class") };
    assert_eq!(class_name, "KitView");
    assert!(dlsym(&mut dyld, &bins, &mut mem, handle, null, 0).is_none());
    assert!(dlsym(&mut dyld, &bins, &mut mem, handle, bad, 0).is_none());
    assert!(dlsym(&mut dyld, &bins, &mut mem, Ptr::from_bits(77), name, 0).is_none());

    for pseudo in [RTLD_DEFAULT, RTLD_NEXT, RTLD_SELF, RTLD_MAIN_ONLY] {
        assert_eq!(dlclose(&mut dyld, &mut mem, Ptr::from_bits(pseudo)), 0);
    }
    assert_eq!(dlclose(&mut dyld, &mut mem, handle), 0);
    assert_eq!(dlclose(&mut dyld, &mut mem, handle), -1);
    assert_eq!(dlclose(&mut dyld, &mut mem, MutVoidPtr::null()), -1);
    assert!(dlerror().is_null());
    assert!(dyld.loaded_host_dylibs.is_empty());
}

#[test]
fn numbers_tell_exports_apart() {
    const SHARING: HostDylib = HostDylib {
        path: "/Sharing",
        aliases: &[],
        class_exports: &[],
        function_exports: &[&[("_new", HostFunction(30))], &[("_first", HostFunction(20))]],
        constant_exports: &[],
    };
    const CLASHING: HostDylib = HostDylib {
        path: "/Clashing",
        aliases: &[],
        class_exports: &[],
        function_exports: &[&[], &[("_last", HostFunction(11))]],
        constant_exports: &[],
    };
    assert!(has_own_numbers(&vec![]));
    assert!(has_own_numbers(&vec![&KIT, &OTHER]));
    // One entry, in the lists of two libraries.
    assert!(has_own_numbers(&vec![&KIT, &OTHER, &SHARING]));
    assert!(!has_own_numbers(&vec![&KIT, &OTHER, &CLASHING]));
}

#[test]
fn images_do_not_count_for_the_host() {
    let mut dyld = dyld();
    let mut mem = memory();
    let host = dyld.open_library("/System/Kit", &[], &mut mem).unwrap();
    let mut anonymous = image("/System/Kit", &[]);
    anonymous.install_name = None;
    for bins in [vec![image("main", &[]), image("/System/Kit", &[])], vec![anonymous]] {
        let handle = dyld.open_library("/System/Kit", &bins, &mut mem).unwrap();
        assert_ne!(handle.to_bits(), host.to_bits());
        assert_eq!(dyld.library_handles.get(handle.to_bits()), Some("/System/Kit"));
        assert_eq!(dyld.dynamic_host_refs.get("/System/Kit"), Some(1));
        assert!(dyld.close_library(handle, &mut mem));
        assert_eq!(dyld.dynamic_host_refs.get("/System/Kit"), Some(1));
        assert_eq!(dyld.loaded_host_dylibs.len(), 1);
    }
    assert!(dyld.close_library(host, &mut mem));
    assert_eq!(dyld.dynamic_host_refs.get("/System/Kit"), Some(0));
    assert!(dyld.loaded_host_dylibs.is_empty());
}

#[test]
fn libraries_are_counted_by_their_own_path() {
    const HIDING: HostDylib = HostDylib {
        path: "/Hiding",
        aliases: &["/Hidden"],
        class_exports: &[],
        function_exports: &[],
        constant_exports: &[],
    };
    const HIDDEN: HostDylib = HostDylib {
        path: "/Hidden",
        aliases: &["/Hidden-alias"],
        class_exports: &[],
        function_exports: &[],
        constant_exports: &[],
    };
    let mut dyld = Dyld::new(vec![&HIDING, &HIDDEN]);
    let mut mem = memory();
    let first = dyld.open_library("/Hidden", &[], &mut mem).unwrap();
    let second = dyld.open_library("/Hidden-alias", &[], &mut mem).unwrap();
    assert_eq!(dyld.library_handles.get(first.to_bits()), Some("/Hiding"));
    assert_eq!(dyld.library_handles.get(second.to_bits()), Some("/Hidden"));
    assert!(dyld.close_library(second, &mut mem));
    let paths: Vec<&str> = dyld.loaded_host_dylibs.iter().map(|d| d.path).collect();
    assert_eq!(paths, ["/Hiding"]);
    assert_eq!(dyld.dynamic_host_refs.get("/Hiding"), Some(1));
}

#[test]
fn opening_lists_a_library_once() {
    let mut dyld = dyld();
    let mut mem = memory();
    let mut handles = vec![];
    for path in ["/System/Kit", "/Kit-alias", "/System/Other", "/Kit-other"] {
        let handle = dyld.open_library(path, &[], &mut mem).unwrap().to_bits();
        assert!(!handles.contains(&handle));
        assert!(mem.is_known_allocation(handle));
        handles.push(handle);
    }
    let paths: Vec<&str> = dyld.loaded_host_dylibs.iter().map(|d| d.path).collect();
    assert_eq!(paths, ["/System/Kit", "/System/Other"]);
    assert_eq!(dyld.dynamic_host_refs.get("/System/Kit"), Some(3));
}

#[test]
fn room_is_needed_only_for_what_is_made() {
    let mut dyld = dyld();
    let mut mem = memory();
    let bins = vec![image("main", &[])];
    let null: ConstPtr<u8> = Ptr::null();
    let path = mem.alloc_and_write_cstr(b"/System/Kit").cast_const();
    let missing = mem.alloc_and_write_cstr(b"/nowhere").cast_const();
    let first = mem.alloc_and_write_cstr(b"first").cast_const();
    let second = mem.alloc_and_write_cstr(b"second").cast_const();
    let constant = mem.alloc_and_write_cstr(b"kConstant").cast_const();
    assert!(has_room_to_open(&dyld, &bins, &mem, path));
    let handle = dlopen(&mut dyld, &bins, &mut mem, path);
    let made = dlsym(&mut dyld, &bins, &mut mem, handle, first, 0);
    assert!(made.is_some());
    // Take all that is left.
    let mut size = 0x8000_0000u32;
    while size > 0 {
        while mem.can_allocate(size) {
            mem.allocate(size);
        }
        size /= 2;
    }
    assert!(!has_room_to_open(&dyld, &bins, &mem, path));
    assert!(has_room_to_open(&dyld, &bins, &mem, missing));
    assert!(has_room_to_open(&dyld, &bins, &mem, null));
    assert!(dlopen(&mut dyld, &bins, &mut mem, missing).is_null());
    assert!(!has_room_to_find(&dyld, &bins, &mem, handle, second, 0));
    assert!(has_room_to_find(&dyld, &bins, &mem, handle, first, 0));
    assert!(has_room_to_find(&dyld, &bins, &mem, handle, constant, 0));
    assert!(has_room_to_find(&dyld, &bins, &mem, handle, null, 0));
    assert!(has_room_to_find(&dyld, &bins, &mem, Ptr::from_bits(77), second, 0));
    let again = dlsym(&mut dyld, &bins, &mut mem, handle, first, 0);
    match (made, again) {
        (Some(SymbolTarget::Function { function: a }), Some(SymbolTarget::Function { function: b })) => {
            assert_eq!(a, b)
        }
        _ => panic!("not a function"),
    }
}
