use atcli_judge::{
    cache_is_fresh, compiler_arguments, fingerprint, fingerprint_matches, fingerprint_text, hash_bytes,
};

#[test]
fn fnv1a_known_values() {
    let mut hash = 0xcbf2_9ce4_8422_2325_u64;
    hash_bytes(&mut hash, b"");
    assert_eq!(hash, 0xcbf2_9ce4_8422_2325);
    hash_bytes(&mut hash, b"a");
    assert_eq!(hash, 0xaf63_dc4c_8601_ec8c);
}

#[test]
fn fingerprint_changes_with_command_or_contents() {
    let inputs = vec![(b"/tmp/main.cpp".to_vec(), b"int main() {}\n".to_vec())];
    let base = fingerprint("g++ -O0", &inputs);
    assert_ne!(base, fingerprint("g++ -O2", &inputs));
    let changed = vec![(b"/tmp/main.cpp".to_vec(), b"int main() { return 1; }\n".to_vec())];
    assert_ne!(base, fingerprint("g++ -O0", &changed));
    assert_eq!(base, fingerprint("g++ -O0", &inputs));
}

#[test]
fn fingerprint_text_is_sixteen_hex_digits() {
    assert_eq!(fingerprint_text(0xaf63_dc4c_8601_ec8c), "af63dc4c8601ec8c");
    assert_eq!(fingerprint_text(0x1f), "000000000000001f");
    assert_eq!(fingerprint_text(42), format!("{:016x}", 42u64));
    assert!(fingerprint_matches("000000000000001f\n", 0x1f));
    assert!(fingerprint_matches("  000000000000001f  ", 0x1f));
    assert!(!fingerprint_matches("1f\n", 0x1f));
    assert!(!fingerprint_matches("000000000000001e\n", 0x1f));
}

#[test]
fn hashing_in_pieces_is_hashing_the_whole() {
    let mut whole = 0xcbf2_9ce4_8422_2325_u64;
    hash_bytes(&mut whole, b"compiler=g++\n/tmp/main.cpp");
    let mut pieces = 0xcbf2_9ce4_8422_2325_u64;
    hash_bytes(&mut pieces, b"compiler=g++\n");
    hash_bytes(&mut pieces, b"/tmp/main.cpp");
    assert_eq!(whole, pieces);
}

#[test]
fn stored_fingerprint_reads_back() {
    for value in [0u64, 1, 0xaf63_dc4c_8601_ec8c, u64::MAX] {
        let mut stored = fingerprint_text(value);
        stored.push('\n');
        assert!(fingerprint_matches(&stored, value));
        assert!(!fingerprint_matches(&stored, value ^ 1));
    }
}

#[test]
fn compiler_arguments_and_cache_freshness() {
    let flags = vec!["-O2".to_string(), "-Wall".to_string()];
    let dirs = vec!["/repo/lib".to_string()];
    assert_eq!(
        compiler_arguments("gnu++23", &flags, &dirs),
        vec!["-std=gnu++23", "-O2", "-Wall", "-I/repo/lib", "-MMD", "-MF"]
    );
    let text = fingerprint_text(7);
    assert!(cache_is_fresh(true, true, Some(7), Some(&text)));
    assert!(!cache_is_fresh(false, true, Some(7), Some(&text)));
    assert!(!cache_is_fresh(true, false, Some(7), Some(&text)));
    assert!(!cache_is_fresh(true, true, None, Some(&text)));
    assert!(!cache_is_fresh(true, true, Some(7), None));
    assert!(!cache_is_fresh(true, true, Some(8), Some(&text)));
}
