use typst_bake::cache::CompressionCache;
use typst_bake::embed::FsEntry;
use typst_bake::error::Error;
use typst_bake::resolver::{decode_text, join_path, normalize_path, EmbeddedResolver, FileKey};
use typst_bake::scanner::PackageSpec;

fn compressed(data: &[u8]) -> Vec<u8> {
    // Run the bytes through a cache with a disk snapshot configured, and
    // take the compressed form from the entry queued for persistence.
    let mut cache = CompressionCache::new(Some(Vec::new()), 19);
    cache.compress(&data.to_vec());
    cache.pending_writes()[0].1.clone()
}

#[test]
fn template_files_resolve_and_decompress() {
    let body = b"#set page(width: 10cm)";
    let templates = vec![FsEntry::File { name: "main.typ".to_owned(), data: compressed(body) }];
    let resolver = EmbeddedResolver::new(&templates, &Vec::new());
    let key = FileKey { package: None, vpath: "main.typ".to_owned() };
    assert_eq!(resolver.decompress_file(&key).unwrap(), body.to_vec());
}

#[test]
fn nested_template_paths_use_forward_slashes() {
    let body = b"content";
    let templates = vec![FsEntry::Dir {
        name: "sub".to_owned(),
        entries: vec![FsEntry::File { name: "part.typ".to_owned(), data: compressed(body) }],
    }];
    let resolver = EmbeddedResolver::new(&templates, &Vec::new());
    let key = FileKey { package: None, vpath: "sub/part.typ".to_owned() };
    assert_eq!(resolver.decompress_file(&key).unwrap(), body.to_vec());
}

#[test]
fn package_files_are_keyed_by_spec() {
    let body = b"#let lib = 1";
    let packages = vec![FsEntry::Dir {
        name: "preview".to_owned(),
        entries: vec![FsEntry::Dir {
            name: "cetz".to_owned(),
            entries: vec![FsEntry::Dir {
                name: "0.3.2".to_owned(),
                entries: vec![FsEntry::File {
                    name: "lib.typ".to_owned(),
                    data: compressed(body),
                }],
            }],
        }],
    }];
    let resolver = EmbeddedResolver::new(&Vec::new(), &packages);
    let key = FileKey {
        package: Some(PackageSpec {
            namespace: "preview".to_owned(),
            name: "cetz".to_owned(),
            version: "0.3.2".to_owned(),
        }),
        vpath: "lib.typ".to_owned(),
    };
    assert_eq!(resolver.decompress_file(&key).unwrap(), body.to_vec());
}

#[test]
fn missing_files_report_their_path() {
    let resolver = EmbeddedResolver::new(&Vec::new(), &Vec::new());
    let key = FileKey { package: None, vpath: "absent.typ".to_owned() };
    match resolver.decompress_file(&key) {
        Err(Error::EntryNotFound(p)) => assert_eq!(p, "absent.typ"),
        other => panic!("expected a not-found error, got {:?}", other),
    }
}

#[test]
fn corrupt_blobs_fail_decompression() {
    let templates = vec![FsEntry::File { name: "bad.bin".to_owned(), data: vec![0, 1, 2, 3] }];
    let resolver = EmbeddedResolver::new(&templates, &Vec::new());
    let key = FileKey { package: None, vpath: "bad.bin".to_owned() };
    assert!(matches!(resolver.decompress_file(&key), Err(Error::Decompression)));
}

#[test]
fn path_helpers_normalize_and_join() {
    assert_eq!(normalize_path("a\\b\\c.typ"), "a/b/c.typ");
    assert_eq!(normalize_path("plain.typ"), "plain.typ");
    assert_eq!(join_path("", "x.typ"), "x.typ");
    assert_eq!(join_path("dir", "x.typ"), "dir/x.typ");
}

#[test]
fn text_decoding_strips_the_byte_order_mark() {
    let mut with_bom = vec![0xEF, 0xBB, 0xBF];
    with_bom.extend_from_slice("hello".as_bytes());
    assert_eq!(decode_text(&with_bom).unwrap(), "hello");
    assert_eq!(decode_text(&"plain".as_bytes().to_vec()).unwrap(), "plain");
    assert!(matches!(
        decode_text(&vec![0xFF, 0xFE, 0x00]),
        Err(Error::InvalidUtf8)
    ));
}
