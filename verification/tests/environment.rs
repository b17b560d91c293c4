use touchhle::environment::class_order::{class_load_order, is_class_hierarchy, ClassNode};
use touchhle::environment::load_order::{generate_binary_load_order, BinaryDependencyNode};
use touchhle::environment::{
    choose_device_family, dylib_slide, startup_orientation, zero_memory_on_free,
    DeviceOrientation, FamilyChoice, Thread, ThreadBlock,
};

fn node(name: &str, dependencies: &[&str]) -> BinaryDependencyNode {
    BinaryDependencyNode {
        name: name.to_string(),
        dependencies: dependencies.iter().map(|d| d.to_string()).collect(),
    }
}

#[test]
fn libraries_come_before_what_depends_on_them() {
    let graph = [
        node("app", &["/usr/lib/libstdc++.6.dylib", "/usr/lib/libz.dylib", "/System/UIKit"]),
        node("libstdc++.6.dylib", &["/usr/lib/libgcc_s.1.dylib"]),
        node("libz.dylib", &[]),
        node("libgcc_s.1.dylib", &[]),
    ];
    assert_eq!(generate_binary_load_order(&graph), Ok(vec![2, 3, 1, 0]));
    assert_eq!(generate_binary_load_order(&[]), Ok(vec![]));
}

#[test]
fn cycles_are_reported() {
    let graph = [node("a", &["b"]), node("b", &["/usr/lib/c"]), node("c", &["a"]), node("d", &[])];
    assert_eq!(generate_binary_load_order(&graph), Err(0));
    assert_eq!(generate_binary_load_order(&[node("a", &["a"])]), Err(0));
    assert_eq!(generate_binary_load_order(&[node("d", &[]), node("a", &["b", "d"]), node("b", &["a"])]), Err(1));
}

#[test]
fn the_last_binary_of_a_name_stands_for_all() {
    let graph = [node("a", &["b"]), node("b", &[]), node("a", &[])];
    assert_eq!(generate_binary_load_order(&graph), Ok(vec![1, 2]));
}

#[test]
fn portrait_is_kept_where_it_is_supported() {
    let list = |names: &[&str]| names.iter().map(|n| format!("UIInterfaceOrientation{n}")).collect::<Vec<_>>();
    let portrait = DeviceOrientation::Portrait;
    let start = |names: &[&str]| startup_orientation(portrait, &list(names));
    assert_eq!(start(&[]), portrait);
    assert_eq!(start(&["LandscapeLeft", "Portrait"]), portrait);
    assert_eq!(start(&["LandscapeLeft", "LandscapeRight"]), DeviceOrientation::LandscapeRight);
    assert_eq!(start(&["LandscapeRight"]), DeviceOrientation::LandscapeLeft);
    assert_eq!(start(&["Landscape"]), DeviceOrientation::LandscapeLeft);
    assert_eq!(start(&["PortraitUpsideDown"]), portrait);
    assert_eq!(start(&["Sideways"]), portrait);
    let left = DeviceOrientation::LandscapeLeft;
    assert_eq!(startup_orientation(left, &list(&["LandscapeLeft"])), left);
}

#[test]
fn device_families_fit_the_app() {
    assert_eq!(choose_device_family(Some(true), true, true), FamilyChoice::Override);
    assert_eq!(choose_device_family(Some(false), true, false), FamilyChoice::Override);
    assert_eq!(choose_device_family(Some(true), true, false), FamilyChoice::DefaultPhone);
    assert_eq!(choose_device_family(Some(false), false, true), FamilyChoice::DefaultIpad);
    assert_eq!(choose_device_family(None, true, true), FamilyChoice::DefaultPhone);
    assert_eq!(choose_device_family(None, false, true), FamilyChoice::DefaultIpad);
    assert_eq!(choose_device_family(None, false, false), FamilyChoice::DefaultPhone);
}

#[test]
fn bundled_libraries_have_their_places() {
    assert_eq!(dylib_slide("libstdc++.6.dylib"), Some(0x3748a000));
    assert_eq!(dylib_slide("libc++.1.dylib"), Some(0x38000000));
    assert_eq!(dylib_slide("libc++abi.dylib"), Some(0x38100000));
    assert_eq!(dylib_slide("libiconv.2.dylib"), Some(0x32000000));
    assert_eq!(dylib_slide("libgcc_s.1.dylib"), Some(0x30000000));
    assert_eq!(dylib_slide("libsqlite3.0.dylib"), Some(0));
    assert_eq!(dylib_slide("libunknown.dylib"), None);
}

#[test]
fn some_games_zero_memory_on_allocation() {
    assert!(zero_memory_on_free("com.example.game"));
    assert!(!zero_memory_on_free("com.ea.spore.origins"));
    assert!(!zero_memory_on_free("com.capybaragames.CritterCrunch"));
    assert!(!zero_memory_on_free("com.go.starwave.CritterCrunchLite"));
    assert!(zero_memory_on_free("com.ea.spor"));
}

#[test]
fn threads_know_if_they_are_blocked() {
    let thread = |blocked_by| Thread { active: true, blocked_by };
    assert!(!thread(ThreadBlock::NotBlocked).is_blocked());
    assert!(thread(ThreadBlock::Mutex(1)).is_blocked());
    assert!(thread(ThreadBlock::Suspended(1, Box::new(ThreadBlock::NotBlocked))).is_blocked());
}

fn class(superclass: Option<usize>, has_own_load: bool, skipped: bool) -> ClassNode {
    ClassNode { superclass, has_own_load, skipped }
}

#[test]
fn superclasses_are_loaded_first() {
    let classes = [
        class(Some(2), true, false),
        class(None, true, false),
        class(Some(3), false, false),
        class(Some(1), true, false),
        class(Some(3), true, false),
        class(None, false, false),
    ];
    assert!(is_class_hierarchy(&classes));
    assert_eq!(class_load_order(&classes), vec![1, 3, 0, 4]);
    assert_eq!(class_load_order(&[]), Vec::<usize>::new());
}

#[test]
fn skipped_classes_hide_their_superclasses() {
    let classes = [
        class(Some(1), true, false),
        class(Some(2), true, true),
        class(None, true, false),
        class(Some(1), false, false),
    ];
    assert!(is_class_hierarchy(&classes));
    assert_eq!(class_load_order(&classes), vec![0, 2]);
}

#[test]
fn broken_hierarchies_are_noticed() {
    assert!(is_class_hierarchy(&[]));
    assert!(is_class_hierarchy(&[class(Some(1), true, false), class(None, true, false)]));
    assert!(!is_class_hierarchy(&[class(Some(0), true, false)]));
    assert!(!is_class_hierarchy(&[class(Some(1), true, false), class(Some(0), true, true)]));
    assert!(!is_class_hierarchy(&[class(None, true, false), class(Some(2), true, false)]));
}
