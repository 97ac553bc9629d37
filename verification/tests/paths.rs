use datapack_tree::keypath::KeyPath;

#[test]
fn terminal_segment_with_dot_is_file() {
    assert!(KeyPath::new("c.json").is_file());
    assert!(KeyPath::new("a/b/c.json").is_file());
    assert!(KeyPath::new("x.y/z.w").is_file());
    assert!(KeyPath::new("pack.mcmeta").is_file());
}

#[test]
fn terminal_segment_without_dot_is_folder() {
    assert!(!KeyPath::new("folder").is_file());
    assert!(!KeyPath::new("a.b/c").is_file());
    assert!(!KeyPath::new("").is_file());
    assert!(!KeyPath::new("dir/").is_file());
    assert!(!KeyPath::new("a/b/c").is_file());
}
