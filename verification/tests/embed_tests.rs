use typst_bake::cache::CompressionCache;
use typst_bake::config::{clamp_compression_level, is_font_file, is_hidden, resolve_path};
use typst_bake::embed::{embed_dir, embed_fonts_dir, embed_packages, EmbedEntry, FsEntry};
use typst_bake::scanner::PackageSpec;

fn file(name: &str, data: &[u8]) -> FsEntry {
    FsEntry::File { name: name.to_owned(), data: data.to_vec() }
}

fn dir(name: &str, entries: Vec<FsEntry>) -> FsEntry {
    FsEntry::Dir { name: name.to_owned(), entries }
}

fn entry_name(e: &EmbedEntry) -> &str {
    match e {
        EmbedEntry::File { name, .. } => name,
        EmbedEntry::Dir { name, .. } => name,
    }
}

#[test]
fn entries_come_out_in_name_order() {
    // Whatever order the filesystem listed them in, entries are sorted.
    let mut cache = CompressionCache::new(None, 19);
    let tree = vec![file("b.txt", b"bb"), file("a.txt", b"aa"), file("c.txt", b"cc")];
    let result = embed_dir(&tree, &mut cache);
    let names: Vec<&str> = result.entries.iter().map(entry_name).collect();
    assert_eq!(names, vec!["a.txt", "b.txt", "c.txt"]);
    assert_eq!(result.file_count, 3);
    assert_eq!(result.original_size, 6);
}

#[test]
fn hidden_entries_are_skipped() {
    let mut cache = CompressionCache::new(None, 19);
    let tree = vec![
        file(".hidden", b"x"),
        dir(".git", vec![file("config", b"y")]),
        file("kept.txt", b"z"),
    ];
    let result = embed_dir(&tree, &mut cache);
    assert_eq!(result.file_count, 1);
    assert_eq!(result.entries.len(), 1);
    assert_eq!(entry_name(&result.entries[0]), "kept.txt");
}

#[test]
fn identical_files_share_one_blob() {
    // N files with identical content: one stored blob, N references,
    // duplicate_count == N - 1.
    let mut cache = CompressionCache::new(None, 19);
    let content = vec![42u8; 512];
    let tree = vec![
        file("one.bin", &content),
        file("two.bin", &content),
        dir("nested", vec![file("three.bin", &content)]),
    ];
    let result = embed_dir(&tree, &mut cache);
    assert_eq!(result.file_count, 3);
    assert_eq!(cache.dedup_unique_blobs(), 1);
    assert_eq!(cache.dedup_duplicate_count(), 2);
    // All three file entries reference the same blob.
    let mut hashes: Vec<String> = Vec::new();
    fn walk(entries: &[EmbedEntry], hashes: &mut Vec<String>) {
        for e in entries {
            match e {
                EmbedEntry::File { hash, .. } => hashes.push(hash.clone()),
                EmbedEntry::Dir { entries, .. } => walk(entries, hashes),
            }
        }
    }
    walk(&result.entries, &mut hashes);
    assert_eq!(hashes.len(), 3);
    assert!(hashes.iter().all(|h| *h == hashes[0]));
}

#[test]
fn font_filter_keeps_fonts_and_drops_empty_dirs() {
    let mut cache = CompressionCache::new(None, 19);
    let tree = vec![
        file("readme.txt", b"not a font"),
        file("b.ttf", b"fontdata"),
        file("A.OTF", b"fontdata2"),
        dir("docs", vec![file("guide.md", b"text")]),
        dir("extra", vec![file("more.ttc", b"fontdata3")]),
    ];
    let result = embed_fonts_dir(&tree, &mut cache);
    let names: Vec<&str> = result.entries.iter().map(entry_name).collect();
    assert_eq!(names, vec!["A.OTF", "b.ttf", "extra"]);
    assert_eq!(result.file_count, 3);
}

#[test]
fn plain_embedding_keeps_empty_dirs() {
    let mut cache = CompressionCache::new(None, 19);
    let tree = vec![dir("empty", Vec::new())];
    let result = embed_dir(&tree, &mut cache);
    assert_eq!(result.entries.len(), 1);
    assert_eq!(result.file_count, 0);
}

#[test]
fn nonexistent_root_yields_empty_result() {
    // A missing root directory is handed in as an empty listing.
    let mut cache = CompressionCache::new(None, 19);
    let result = embed_dir(&Vec::new(), &mut cache);
    assert_eq!(result.entries.len(), 0);
    assert_eq!(result.original_size, 0);
    assert_eq!(result.compressed_size, 0);
    assert_eq!(result.file_count, 0);
}

#[test]
fn packages_are_labelled_and_nested() {
    let mut cache = CompressionCache::new(None, 19);
    let pkg = PackageSpec {
        namespace: "preview".to_owned(),
        name: "cetz".to_owned(),
        version: "0.3.2".to_owned(),
    };
    let pkgs = vec![(pkg, vec![file("lib.typ", b"#let x = 1")])];
    let result = embed_packages(&pkgs, &mut cache);
    assert_eq!(result.infos.len(), 1);
    assert_eq!(result.infos[0].name, "@preview/cetz:0.3.2");
    assert_eq!(result.infos[0].file_count, 1);
    assert_eq!(result.total_original, 10);
    assert_eq!(result.namespace_entries.len(), 1);
    match &result.namespace_entries[0] {
        EmbedEntry::Dir { name, entries } => {
            assert_eq!(name, "preview");
            match &entries[0] {
                EmbedEntry::Dir { name, entries } => {
                    assert_eq!(name, "cetz");
                    match &entries[0] {
                        EmbedEntry::Dir { name, entries } => {
                            assert_eq!(name, "0.3.2");
                            assert_eq!(entries.len(), 1);
                        }
                        other => panic!("expected a version node, got {:?}", entry_name(other)),
                    }
                }
                other => panic!("expected a name node, got {:?}", entry_name(other)),
            }
        }
        other => panic!("expected a namespace node, got {:?}", entry_name(other)),
    }
}

#[test]
fn package_namespaces_come_out_sorted() {
    let mut cache = CompressionCache::new(None, 19);
    let preview = PackageSpec {
        namespace: "preview".to_owned(),
        name: "cetz".to_owned(),
        version: "0.3.2".to_owned(),
    };
    let local = PackageSpec {
        namespace: "local".to_owned(),
        name: "mypkg".to_owned(),
        version: "0.1.0".to_owned(),
    };
    let pkgs = vec![
        (preview, vec![file("a.typ", b"a")]),
        (local, vec![file("b.typ", b"b")]),
    ];
    let result = embed_packages(&pkgs, &mut cache);
    let names: Vec<&str> = result.namespace_entries.iter().map(entry_name).collect();
    assert_eq!(names, vec!["local", "preview"]);
    assert_eq!(result.infos[0].name, "@preview/cetz:0.3.2");
    assert_eq!(result.infos[1].name, "@local/mypkg:0.1.0");
}

#[test]
fn hidden_and_font_predicates() {
    assert!(is_hidden(".git"));
    assert!(is_hidden(".hidden.ttf"));
    assert!(!is_hidden("visible"));
    assert!(!is_hidden(""));
    assert!(is_font_file("a.ttf"));
    assert!(is_font_file("A.TTF"));
    assert!(is_font_file("x.otf"));
    assert!(is_font_file("x.ttc"));
    assert!(!is_font_file("x.txt"));
    assert!(!is_font_file("ttf"));
    assert!(!is_font_file(".ttf"));
}

#[test]
fn paths_resolve_against_the_manifest_dir() {
    assert_eq!(resolve_path("/proj", "templates"), "/proj/templates");
    assert_eq!(resolve_path("/proj", "/abs/fonts"), "/abs/fonts");
}

#[test]
fn compression_level_is_clamped() {
    assert_eq!(clamp_compression_level(0), 1);
    assert_eq!(clamp_compression_level(-5), 1);
    assert_eq!(clamp_compression_level(25), 22);
    assert_eq!(clamp_compression_level(19), 19);
}
