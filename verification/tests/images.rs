use melogold::images::{cache_file_name, ImageMemory, MEMORY};

#[test]
fn cache_files_are_named_by_the_address_digest() {
    assert_eq!(cache_file_name("abc"), "ba7816bf8f01cfea414140de5dae2223.img");
    assert_eq!(cache_file_name(""), "e3b0c44298fc1c149afbf4c8996fb924.img");
    assert_ne!(cache_file_name("https://i.ytimg.com/vi/a/mqdefault.jpg"), cache_file_name("https://i.ytimg.com/vi/b/mqdefault.jpg"));
}

#[test]
fn memory_keeps_the_last_covers_and_replaces_known_ones() {
    let mut memory: ImageMemory<u32> = ImageMemory::new();
    memory.remember("a", 1);
    memory.remember("a", 2);
    assert_eq!(memory.cached("a"), Some(&2));
    for i in 0..MEMORY {
        memory.remember(&format!("u{i}"), i as u32);
    }
    assert_eq!(memory.cached("a"), None);
    assert_eq!(memory.cached("u0"), Some(&0));
    assert_eq!(memory.cached(&format!("u{}", MEMORY - 1)), Some(&(MEMORY as u32 - 1)));
    memory.remember("b", 9);
    assert_eq!(memory.cached("u0"), None);
    assert_eq!(memory.cached("u1"), Some(&1));
    assert_eq!(memory.cached("b"), Some(&9));
}
