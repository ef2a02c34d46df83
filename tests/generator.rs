use random_access_rng::RandomAccessRNG;

#[test]
fn test_char() {
    let u = 'π';
    let mut rarng = RandomAccessRNG::new(u);
    let value = rarng.next_u64();
    assert_eq!(value, 16724686360822309311);
}

#[test]
fn test_u16() {
    let u = 0xffffu16;
    let mut rarng = RandomAccessRNG::new(u);
    let value = rarng.next_u64();
    assert_eq!(value, 665998101699798648);
}

#[test]
fn test_u32() {
    let u = 0xffffffffu32;
    let mut rarng = RandomAccessRNG::new(u);
    let value = rarng.next_u64();
    assert_eq!(value, 14795434613864523112);
}

#[test]
fn test_u64() {
    let u = 0xffffffffffffffffu64;
    let mut rarng = RandomAccessRNG::new(u);
    let value = rarng.next_u64();
    assert_eq!(value, 12064890370527671645);
}

#[test]
fn test_u128() {
    let u = 0xffffffffffffffffffffffffffffffffu128;
    let mut rarng = RandomAccessRNG::new(u);
    let value = rarng.next_u64();
    assert_eq!(value, 17888025342485512677);
}

#[test]
fn test_string() {
    let u = "hello world!";
    let mut rarng = RandomAccessRNG::new(u);
    let value = rarng.next_u64();
    assert_eq!(value, 11707887336117807509);
}

#[test]
fn test_empty_string() {
    let u = "";
    let mut rarng = RandomAccessRNG::new(u);
    let value = rarng.next_u64();
    assert_eq!(value, 943582804379109849);
}

#[test]
fn test_bytes() {
    let u: [u8; 4] = [0xff, 0x01, 0xba, 0xe4];
    let mut rarng = RandomAccessRNG::new(u.as_slice());
    let value = rarng.next_u64();
    assert_eq!(value, 18380605375105428162);
}

#[test]
fn test_arrays() {
    let u = ["0xff", "0x01", "0xba", "0xe4", "hello", "world"];
    let mut rarng = RandomAccessRNG::new(u.as_slice());
    let value = rarng.next_u64();
    assert_eq!(value, 10583993860509112221);
}

#[test]
fn test_nested_arrays() {
    let u = [["hello", "world"], ["stuff", "things"]];
    let mut rarng = RandomAccessRNG::new(u.as_slice());
    let value = rarng.next_u64();
    assert_eq!(value, 17770760056950095666);
}

#[test]
fn test_reproducibility() {
    let u = 10u64;
    let mut rarng = RandomAccessRNG::new(u);
    let mut rarng2 = RandomAccessRNG::new(u);
    for _ in 0..100 {
        assert_eq!(rarng.next_u64(), rarng2.next_u64());
    }
}

#[test]
fn test_seek() {
    let u = 10u64;
    let mut rarng = RandomAccessRNG::new(u);
    let mut rarng2 = RandomAccessRNG::new(u);
    for i in 0..100u64 {
        assert_eq!(rarng.next_u64(), rarng2.seek_u64(i));
    }
}

#[test]
fn test_seek_random_access() {
    let u = 10u64;
    let mut rarng = RandomAccessRNG::new(u);
    let mut rarng2 = RandomAccessRNG::new(u);
    for _ in 0..100u64 {
        rarng.next_u64();
    }
    assert_eq!(rarng.next_u64(), rarng2.seek_u64(100));
}

#[test]
fn test_parent_child_orthogonality() {
    let master_seed = 123456u64;
    let mut parent1 = RandomAccessRNG::new(master_seed);
    let mut parent2 = RandomAccessRNG::new(master_seed);
    let mut child1 = parent1.get("child");
    let mut child2 = parent2.get("child");
    let p1_u64 = parent1.next_u64();
    let c1_u64 = child1.next_u64();
    let c2_u64 = child2.next_u64();
    let p2_u64 = parent2.next_u64();
    assert_eq!(p1_u64, p2_u64);
    assert_eq!(c1_u64, c2_u64);
}

#[test]
fn test_sibling_orthogonality() {
    let master_seed = 123456u64;
    let parent = RandomAccessRNG::new(master_seed);
    let mut child1 = parent.get("child1");
    let mut child2 = parent.get("child2");
    let c1_u64_a = child1.next_u64();
    let c2_u64_a = child2.next_u64();
    let parent = RandomAccessRNG::new(master_seed);
    let mut child1 = parent.get("child1");
    let mut child2 = parent.get("child2");
    let c2_u64_b = child2.next_u64();
    let c1_u64_b = child1.next_u64();
    assert_eq!(c1_u64_a, c1_u64_b);
    assert_eq!(c2_u64_a, c2_u64_b);
}

#[test]
fn test_seek_orthogonality() {
    let master_seed = 123456u64;
    let mut parent = RandomAccessRNG::new(master_seed);
    let s1_a = parent.seek_u64(100);
    let s2_a = parent.seek_u64(200);
    let mut parent = RandomAccessRNG::new(master_seed);
    let s2_b = parent.seek_u64(200);
    let s1_b = parent.seek_u64(100);
    assert_eq!(s1_a, s1_b);
    assert_eq!(s2_a, s2_b);
}

#[test]
fn test_seek_child_orthogonality() {
    let master_seed = 123456u64;
    let mut parent = RandomAccessRNG::new(master_seed);
    let mut child1 = parent.get("child");
    parent.seek_u64(1000);
    let mut child2 = parent.get("child");
    assert_eq!(child1.next_u64(), child2.next_u64());
}

#[test]
fn test_next64_child_orthogonality() {
    let master_seed = 123456u64;
    let mut parent = RandomAccessRNG::new(master_seed);
    let mut child1 = parent.get("child");
    parent.next_u64();
    let mut child2 = parent.get("child");
    assert_eq!(child1.next_u64(), child2.next_u64());
}

#[test]
fn test_next32_child_orthogonality() {
    let master_seed = 123456u64;
    let mut parent = RandomAccessRNG::new(master_seed);
    let mut child1 = parent.get("child");
    parent.next_u32();
    let mut child2 = parent.get("child");
    assert_eq!(child1.next_u64(), child2.next_u64());
}

#[test]
fn test_sibling_reproducibility() {
    let master_seed = 123456u64;
    let parent = RandomAccessRNG::new(master_seed);
    let mut child1 = parent.get("child");
    let mut child2 = parent.get("child");
    for _ in 0..1000 {
        assert_eq!(child1.next_u64(), child2.next_u64());
    }
}

#[test]
fn test_master_reproducibility() {
    let master_seed = 123456u64;
    let mut parent1 = RandomAccessRNG::new(master_seed);
    let mut parent2 = RandomAccessRNG::new(master_seed);
    for _ in 0..1000 {
        assert_eq!(parent1.next_u64(), parent2.next_u64());
    }
}

#[test]
fn test_vector() {
    let master_seed = 123456u64;
    let v1 = vec![1, 2];
    let v2 = vec![2, 1];
    let parent = RandomAccessRNG::new(master_seed);
    let mut child1 = parent.get(v1);
    let mut child2 = parent.get(v2);
    for _ in 0..1000 {
        assert_ne!(child1.next_u64(), child2.next_u64());
    }
}

/// A record, keyed by the tuple of its fields in declaration order.
struct PairA(u64, u64);

impl PairA {
    fn key(&self) -> (u64, u64) {
        (self.0, self.1)
    }
}

/// Another record type with the same fields.
struct PairB(u64, u64);

impl PairB {
    fn key(&self) -> (u64, u64) {
        (self.0, self.1)
    }
}

#[test]
fn test_struct_ne() {
    let master_seed = 123456u64;
    let v1 = PairA(1, 2);
    let v2 = PairA(2, 1);
    let parent = RandomAccessRNG::new(master_seed);
    let mut child1 = parent.get(v1.key());
    let mut child2 = parent.get(v2.key());
    for _ in 0..1000 {
        assert_ne!(child1.next_u64(), child2.next_u64());
    }
}

#[test]
fn test_struct_eq() {
    let master_seed = 123456u64;
    let v1 = PairA(1, 2);
    let v2 = PairB(1, 2);
    let parent = RandomAccessRNG::new(master_seed);
    let mut child1 = parent.get(v1.key());
    let mut child2 = parent.get(v2.key());
    for _ in 0..1000 {
        assert_eq!(child1.next_u64(), child2.next_u64());
    }
}

#[test]
fn first_output_for_seed_ten() {
    let mut rng = RandomAccessRNG::new(10u64);
    assert_eq!(rng.next_u64(), 16663208968700855316);
}

#[test]
fn first_output_for_seed_words() {
    let mut rng = RandomAccessRNG::new("seed");
    assert_eq!(rng.next_u64(), 12859647911360627585);
}

#[test]
fn seek_reentry_reproduces_value() {
    let mut rng = RandomAccessRNG::new(123456u64);
    let first = rng.seek_u64(17);
    let other = rng.seek_u64(4000);
    assert_ne!(first, other);
    assert_eq!(rng.seek_u64(17), first);
}

#[test]
fn seek_leaves_cursor_after_index() {
    let mut a = RandomAccessRNG::new(3u8);
    let mut b = RandomAccessRNG::new(3u8);
    a.seek_u64(9);
    b.seek_u64(10);
    let next_a = a.next_u64();
    assert_eq!(next_a, RandomAccessRNG::new(3u8).seek_u64(10));
    assert_eq!(b.next_u64(), RandomAccessRNG::new(3u8).seek_u64(11));
}

#[test]
fn cursor_wraps_after_the_last_index() {
    let mut rng = RandomAccessRNG::new(1u64);
    rng.seek_u64(u64::MAX);
    let wrapped = rng.next_u64();
    assert_eq!(wrapped, RandomAccessRNG::new(1u64).seek_u64(0));
}

#[test]
fn next_u32_is_low_half_of_next_u64() {
    let mut a = RandomAccessRNG::new("low");
    let mut b = RandomAccessRNG::new("low");
    for _ in 0..20 {
        assert_eq!(a.next_u32(), b.next_u64() as u32);
    }
}

#[test]
fn siblings_differ_and_do_not_interfere() {
    let parent = RandomAccessRNG::new(123456u64);
    let mut a = parent.get("A");
    let mut b = parent.get("B");
    let mut b_again = parent.get("B");
    assert_ne!(a.next_u64(), b.next_u64());
    for _ in 0..10 {
        a.next_u64();
    }
    a.seek_u64(500);
    assert_eq!(b.next_u64(), b_again.seek_u64(1));
}

#[test]
fn child_differs_from_parent() {
    let mut parent = RandomAccessRNG::new(123456u64);
    let mut child = parent.get("child");
    assert_ne!(parent.next_u64(), child.next_u64());
}

#[test]
fn descendant_equals_chain_of_gets() {
    let parent = RandomAccessRNG::new("root");
    let keys = vec!["level1", "level2", "level3"];
    let mut d1 = parent.descendant(keys.as_slice());
    let mut d2 = parent.get("level1").get("level2").get("level3");
    for _ in 0..50 {
        assert_eq!(d1.next_u64(), d2.next_u64());
    }
}

#[test]
fn descendant_of_no_keys_restarts_parent() {
    let mut parent = RandomAccessRNG::new(42u64);
    let first = parent.next_u64();
    let none: [u64; 0] = [];
    let mut d = parent.descendant(none.as_slice());
    assert_eq!(d.next_u64(), first);
}

#[test]
fn pair_key_is_its_components_in_order() {
    let parent = RandomAccessRNG::new(0u64);
    let mut tile = parent.get((12u32, 7u32));
    let mut same_bytes = parent.get(12u64 | (7u64 << 32));
    let mut chained = parent.get(12u32).get(7u32);
    let mut swapped = parent.get((7u32, 12u32));
    let t = tile.next_u64();
    assert_eq!(t, same_bytes.next_u64());
    assert_ne!(t, chained.next_u64());
    assert_ne!(t, swapped.next_u64());
}

#[test]
fn key_order_is_kept_when_deriving() {
    let parent = RandomAccessRNG::new(123456u64);
    let mut ab = parent.get(1u8).get((1u8, 1u8));
    let mut ba = parent.get((1u8, 1u8)).get(1u8);
    assert_ne!(ab.next_u64(), ba.next_u64());
    let mut xy = parent.get("x").get("y");
    let mut yx = parent.get("y").get("x");
    assert_ne!(xy.next_u64(), yx.next_u64());
}

#[test]
fn seed_and_keys_are_kept_apart() {
    let mut one_seed = RandomAccessRNG::new(257u16);
    let mut seed_and_key = RandomAccessRNG::new(1u8).get(1u8);
    assert_ne!(one_seed.next_u64(), seed_and_key.next_u64());
    let mut joined = RandomAccessRNG::new("ab");
    let mut split = RandomAccessRNG::new("a").get("b");
    assert_ne!(joined.next_u64(), split.next_u64());
}

#[test]
fn from_seed_is_new_on_the_byte_array() {
    let seed = [1u8, 2, 3, 4, 5, 6, 7, 8];
    let mut a = RandomAccessRNG::from_seed(seed);
    let mut b = RandomAccessRNG::new(seed);
    let mut c = RandomAccessRNG::new(seed.as_slice());
    let x = a.next_u64();
    assert_eq!(x, b.next_u64());
    assert_eq!(x, c.next_u64());
}

#[test]
fn clone_keeps_accumulator_and_cursor() {
    let mut rng = RandomAccessRNG::new("clone");
    rng.seek_u64(30);
    let mut copy = rng.clone();
    assert_eq!(rng.next_u64(), copy.next_u64());
    assert_eq!(rng.next_u64(), copy.next_u64());
}

#[test]
fn string_and_str_keys_agree() {
    let parent = RandomAccessRNG::new(1u16);
    let owned = String::from("key");
    let mut a = parent.get(owned);
    let mut b = parent.get("key");
    assert_eq!(a.next_u64(), b.next_u64());
}

#[test]
fn integer_widths_are_distinct_keys() {
    let parent = RandomAccessRNG::new(1u16);
    let mut a = parent.get(5u32);
    let mut b = parent.get(5u64);
    let mut c = parent.get(5i32);
    let x = a.next_u64();
    assert_ne!(x, b.next_u64());
    assert_eq!(x, c.next_u64());
}
