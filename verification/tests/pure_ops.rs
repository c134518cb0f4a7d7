use timem::{
    build_snapshot_message, bytes_eq, classify_line, encode_store_name, parse_commit_ref,
    parse_dec_u64, path_is_ancestor, tag_lines, u64_to_dec, CommitRef, LineTag, PrefixIndex,
};

#[test]
fn it_works() {}

fn b(s: &str) -> Vec<u8> {
    s.as_bytes().to_vec()
}

#[test]
fn ancestor_component_wise() {
    assert!(path_is_ancestor(&b("/data"), &b("/data")));
    assert!(path_is_ancestor(&b("/data"), &b("/data/x")));
    assert!(path_is_ancestor(&b("/data"), &b("/data/x/y")));
    assert!(!path_is_ancestor(&b("/data"), &b("/database/y")));
    assert!(!path_is_ancestor(&b("/data/x"), &b("/data")));
    assert!(path_is_ancestor(&b("/"), &b("/data")));
    assert!(!path_is_ancestor(&b("/datb"), &b("/data")));
}

#[test]
fn prefix_index_no_byte_prefix_false_positive() {
    let mut idx = PrefixIndex::new();
    idx.insert(b("/data"), b("/data"));
    idx.insert(b("/database"), b("/database"));
    let r = idx.lookup(&b("/data/x")).unwrap();
    assert!(bytes_eq(&r, &b("/data")));
    let r2 = idx.lookup(&b("/database/y")).unwrap();
    assert!(bytes_eq(&r2, &b("/database")));
}

#[test]
fn prefix_index_deepest_wins() {
    let mut idx = PrefixIndex::new();
    idx.insert(b("/a"), b("/a"));
    idx.insert(b("/a/b/c"), b("/a/b/c"));
    let r = idx.lookup(&b("/a/b/c/d.txt")).unwrap();
    assert!(bytes_eq(&r, &b("/a/b/c")));
    let r2 = idx.lookup(&b("/a/b/x")).unwrap();
    assert!(bytes_eq(&r2, &b("/a")));
}

#[test]
fn prefix_index_unregistered_is_none() {
    let mut idx = PrefixIndex::new();
    idx.insert(b("/a"), b("/a"));
    assert!(idx.lookup(&b("/b/c")).is_none());
    assert!(idx.lookup(&b("/ab")).is_none());
}

#[test]
fn store_name_escapes_before_substituting() {
    assert_eq!(encode_store_name(&b("/tmp/a_b")), b("_d_tmp_d_a__b"));
    assert_eq!(encode_store_name(&b("/a_b")), b("_d_a__b"));
    assert_eq!(encode_store_name(&b("/a/b")), b("_d_a_d_b"));
    assert_ne!(encode_store_name(&b("/a_b")), encode_store_name(&b("/a/b")));
}

#[test]
fn decimal_rendering() {
    assert_eq!(u64_to_dec(0), b("0"));
    assert_eq!(u64_to_dec(7), b("7"));
    assert_eq!(u64_to_dec(1234567890), b("1234567890"));
    assert_eq!(u64_to_dec(u64::MAX), b("18446744073709551615"));
}

#[test]
fn decimal_parsing() {
    assert_eq!(parse_dec_u64(&b("0")), Some(0));
    assert_eq!(parse_dec_u64(&b("300")), Some(300));
    assert_eq!(parse_dec_u64(&b("18446744073709551615")), Some(u64::MAX));
    assert_eq!(parse_dec_u64(&b("18446744073709551616")), None);
    assert_eq!(parse_dec_u64(&b("")), None);
    assert_eq!(parse_dec_u64(&b("12x")), None);
    assert_eq!(parse_dec_u64(&b("-3")), None);
}

#[test]
fn snapshot_message_format() {
    assert_eq!(build_snapshot_message(42), b("TimeM snapshot at 42s"));
    assert_eq!(build_snapshot_message(0), b("TimeM snapshot at 0s"));
}

#[test]
fn commit_reference_grammar() {
    assert_eq!(parse_commit_ref(&b("H")), CommitRef::Head);
    assert_eq!(parse_commit_ref(&b("h")), CommitRef::Head);
    assert_eq!(parse_commit_ref(&b("HEAD")), CommitRef::Head);
    assert_eq!(parse_commit_ref(&b("head")), CommitRef::Head);
    assert_eq!(parse_commit_ref(&b("Head")), CommitRef::Head);
    assert_eq!(parse_commit_ref(&b("-2")), CommitRef::Older(2));
    assert_eq!(parse_commit_ref(&b("H-10")), CommitRef::Older(10));
    assert_eq!(parse_commit_ref(&b("+3")), CommitRef::Newer(3));
    assert_eq!(parse_commit_ref(&b("H+0")), CommitRef::Newer(0));
    assert_eq!(parse_commit_ref(&b("+x")), CommitRef::Malformed);
    assert_eq!(parse_commit_ref(&b("-")), CommitRef::Malformed);
    assert_eq!(parse_commit_ref(&b("abc123")), CommitRef::Exact);
    assert_eq!(
        parse_commit_ref(&b("4a5b6c7d8e9f0a1b2c3d4e5f6a7b8c9d0e1f2a3b")),
        CommitRef::Exact
    );
}

#[test]
fn diff_line_classification() {
    assert_eq!(classify_line(b'+'), LineTag::Addition);
    assert_eq!(classify_line(b'>'), LineTag::Addition);
    assert_eq!(classify_line(b'-'), LineTag::Removal);
    assert_eq!(classify_line(b'<'), LineTag::Removal);
    assert_eq!(classify_line(b' '), LineTag::Context);
    assert_eq!(classify_line(b'F'), LineTag::Context);
    assert_eq!(classify_line(b'H'), LineTag::Context);

    let raw = vec![(b'+', b("added line")), (b'-', b("removed line")), (b' ', b("ctx"))];
    let tagged = tag_lines(raw);
    assert_eq!(tagged.len(), 3);
    assert_eq!(tagged[0].tag, LineTag::Addition);
    assert_eq!(tagged[0].content, b("added line"));
    assert_eq!(tagged[1].tag, LineTag::Removal);
    assert_eq!(tagged[2].tag, LineTag::Context);
}

#[test]
fn commit_time_offset_suffix() {
    let rendered = timem::format_commit_time(1_700_000_000, 330).unwrap();
    assert_eq!(rendered.len(), "1970-01-01 00:00:00 +0530".len());
    assert!(rendered.ends_with(b" +0530"));

    let west = timem::format_commit_time(1_700_000_000, -90).unwrap();
    assert!(west.ends_with(b" -0130"));

    let utc = timem::format_commit_time(0, 0).unwrap();
    assert!(utc.ends_with(b" +0000"));
    assert_eq!(utc[4], b'-');
    assert_eq!(utc[7], b'-');
    assert_eq!(utc[10], b' ');
}
