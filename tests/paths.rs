use random_access_rng::{path_components, InvalidPath, RandomAccessRNG};

fn assert_same_stream(a: &mut RandomAccessRNG, b: &mut RandomAccessRNG, n: usize) {
    for _ in 0..n {
        assert_eq!(a.next_u64(), b.next_u64());
    }
}

#[test]
fn test_path() {
    let master_seed = 123456u64;
    let parent = RandomAccessRNG::new(master_seed);
    let hello = parent.get("hello");
    let mut world = hello.get("world!");
    let mut hello_world = parent.path("hello/world!").unwrap();
    for _ in 0..1000 {
        assert_eq!(world.next_u64(), hello_world.next_u64());
    }
}

#[test]
fn test_root_path() {
    let master_seed = 123456u64;
    let parent = RandomAccessRNG::new(master_seed);
    let hello = parent.get("hello");
    let mut world = hello.get("world!");
    let mut hello_world = parent.path("/hello/world!").unwrap();
    for _ in 0..1000 {
        assert_eq!(world.next_u64(), hello_world.next_u64());
    }
}

#[test]
fn test_terminating_path() {
    let master_seed = 123456u64;
    let parent = RandomAccessRNG::new(master_seed);
    let hello = parent.get("hello");
    let mut world = hello.get("world!");
    let mut hello_world = parent.path("hello/world!/").unwrap();
    for _ in 0..1000 {
        assert_eq!(world.next_u64(), hello_world.next_u64());
    }
}

#[test]
fn test_extra_slashes_path() {
    let master_seed = 123456u64;
    let parent = RandomAccessRNG::new(master_seed);
    let hello = parent.get("hello");
    let mut world = hello.get("world!");
    let mut hello_world = parent.path("//hello//////world!///").unwrap();
    for _ in 0..1000 {
        assert_eq!(world.next_u64(), hello_world.next_u64());
    }
}

#[test]
fn test_root_and_terminating_path() {
    let master_seed = 123456u64;
    let parent = RandomAccessRNG::new(master_seed);
    let hello = parent.get("hello");
    let mut world = hello.get("world!");
    let mut hello_world = parent.path("/hello/world!/").unwrap();
    for _ in 0..1000 {
        assert_eq!(world.next_u64(), hello_world.next_u64());
    }
}

#[test]
fn test_piecewise_path() {
    let master_seed = 123456u64;
    let parent = RandomAccessRNG::new(master_seed);
    let first = parent.path("a/b").unwrap();
    let mut second = first.path("c/d").unwrap();
    let mut all = parent.path("a/b/c/d").unwrap();
    for _ in 0..1000 {
        assert_eq!(second.next_u64(), all.next_u64());
    }
}

#[test]
fn test_triple_path() {
    let parent = RandomAccessRNG::new("root");
    let mut child1 = parent.path("world/enemy/color").unwrap();
    let mut child2 = parent.path("world\\enemy\\color").unwrap();
    let mut child3 = parent.path("/world/enemy/color").unwrap();
    let c2_64 = child2.next_u64();
    assert_eq!(child1.next_u64(), c2_64);
    assert_eq!(c2_64, child3.next_u64());
}

#[test]
fn normalized_paths_have_the_same_components() {
    let expected = vec!["a", "b"];
    assert_eq!(path_components("/a/b/").unwrap(), expected);
    assert_eq!(path_components("a/b").unwrap(), expected);
    assert_eq!(path_components("//a//b//").unwrap(), expected);
    assert_eq!(path_components("a\\b").unwrap(), expected);
    assert_eq!(path_components("\\a/\\b\\").unwrap(), expected);
}

#[test]
fn empty_and_root_paths_have_no_components() {
    assert!(path_components("").unwrap().is_empty());
    assert!(path_components("/").unwrap().is_empty());
    assert!(path_components("//\\//").unwrap().is_empty());
    let mut parent = RandomAccessRNG::new(7u64);
    parent.seek_u64(40);
    let mut same = parent.path("/").unwrap();
    let mut fresh = RandomAccessRNG::new(7u64);
    assert_same_stream(&mut same, &mut fresh, 10);
}

#[test]
fn components_keep_dots_inside_names() {
    assert_eq!(path_components("a.b/...").unwrap(), vec!["a.b", "..."]);
    assert_eq!(path_components(".x/y.").unwrap(), vec![".x", "y."]);
    assert_eq!(path_components("p\u{e9}/\u{3c0}").unwrap(), vec!["p\u{e9}", "\u{3c0}"]);
}

#[test]
fn invalid_paths_are_rejected() {
    let parent = RandomAccessRNG::new(123456u64);
    assert_eq!(parent.path(".").err(), Some(InvalidPath));
    assert_eq!(parent.path("..").err(), Some(InvalidPath));
    assert_eq!(parent.path("a/../b").err(), Some(InvalidPath));
    assert_eq!(parent.path("a/./b").err(), Some(InvalidPath));
    assert_eq!(parent.path("a/b/..").err(), Some(InvalidPath));
    assert_eq!(path_components("./a").err(), Some(InvalidPath));
}

#[test]
fn drive_markers_are_rejected() {
    assert_eq!(path_components("C:/a").err(), Some(InvalidPath));
    assert_eq!(path_components("c:").err(), Some(InvalidPath));
    assert_eq!(path_components("z:\\b").err(), Some(InvalidPath));
    assert_eq!(path_components("/C:/a").unwrap(), vec!["C:", "a"]);
    assert_eq!(path_components("1:/a").unwrap(), vec!["1:", "a"]);
}

#[test]
fn unc_verbatim_and_device_prefixes_are_rejected() {
    assert_eq!(path_components("\\\\server\\share\\a").err(), Some(InvalidPath));
    assert_eq!(path_components("\\\\?\\C:\\a").err(), Some(InvalidPath));
    assert_eq!(path_components("\\\\.\\device").err(), Some(InvalidPath));
    assert_eq!(path_components("//server/share").unwrap(), vec!["server", "share"]);
    assert_eq!(path_components("\\a").unwrap(), vec!["a"]);
}

#[test]
fn path_equals_manual_chain() {
    let parent = RandomAccessRNG::new("world_seed");
    let mut by_path = parent.path("biomes/forest").unwrap();
    let mut by_chain = parent.get("biomes").get("forest");
    assert_same_stream(&mut by_path, &mut by_chain, 50);
}

#[test]
fn path_equals_descendant() {
    let parent = RandomAccessRNG::new(99u32);
    let keys = ["x", "y", "z"];
    let mut by_path = parent.path("x/y/z").unwrap();
    let mut by_keys = parent.descendant(keys.as_slice());
    assert_same_stream(&mut by_path, &mut by_keys, 50);
}

#[test]
fn path_order_matters() {
    let parent = RandomAccessRNG::new(5u64);
    let mut ab = parent.path("a/b").unwrap();
    let mut ba = parent.path("b/a").unwrap();
    assert_ne!(ab.next_u64(), ba.next_u64());
}
