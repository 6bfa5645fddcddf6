use typst_bake::error::Error;
use typst_bake::stats::{
    format_size, reduction_percent, CategoryStats, DedupStats, EmbedStats, PackageStats,
};

#[test]
fn reduction_is_zero_for_empty_original() {
    assert_eq!(reduction_percent(0, 0), "0.0");
    assert_eq!(reduction_percent(0, 100), "0.0");
}

#[test]
fn reduction_of_three_quarters() {
    // Asymmetric values: the reduction is of the original, not the other
    // way round.
    assert_eq!(reduction_percent(1000, 250), "75.0");
    assert_eq!(reduction_percent(250, 1000), "-300.0");
    assert_eq!(reduction_percent(100, 150), "-50.0");
    assert_eq!(reduction_percent(3, 2), "33.3");
}

#[test]
fn test_format_size_bytes() {
    assert_eq!(format_size(0), "0 B");
    assert_eq!(format_size(512), "512 B");
    assert_eq!(format_size(1023), "1023 B");
}

#[test]
fn test_format_size_kilobytes() {
    assert_eq!(format_size(1024), "1.0 KB");
    assert_eq!(format_size(1536), "1.5 KB");
    assert_eq!(format_size(10240), "10.0 KB");
}

#[test]
fn test_format_size_megabytes() {
    assert_eq!(format_size(1048576), "1.00 MB");
    assert_eq!(format_size(1572864), "1.50 MB");
}

#[test]
fn test_embed_stats_totals() {
    let stats = EmbedStats {
        templates: CategoryStats { original_size: 1000, compressed_size: 200, file_count: 1 },
        fonts: CategoryStats { original_size: 2000, compressed_size: 600, file_count: 2 },
        packages: PackageStats {
            packages: vec![],
            total_original: 1000,
            total_compressed: 200,
        },
        dedup: DedupStats {
            total_files: 4,
            unique_blobs: 3,
            duplicate_count: 1,
            saved_bytes: 100,
        },
    };
    assert_eq!(stats.total_original(), 4000);
    assert_eq!(stats.total_compressed(), 1000);
    assert_eq!(stats.total_deduplicated(), 900);
    assert_eq!(stats.total_file_count(), 3);
}

#[test]
fn report_renders_the_summary_table() {
    let stats = EmbedStats {
        templates: CategoryStats { original_size: 1000, compressed_size: 200, file_count: 1 },
        fonts: CategoryStats { original_size: 2000, compressed_size: 600, file_count: 2 },
        packages: PackageStats {
            packages: vec![typst_bake::stats::PackageInfo {
                name: "@preview/cetz:0.3.2".to_owned(),
                original_size: 1000,
                compressed_size: 200,
                file_count: 3,
            }],
            total_original: 1000,
            total_compressed: 200,
        },
        dedup: DedupStats {
            total_files: 6,
            unique_blobs: 5,
            duplicate_count: 1,
            saved_bytes: 100,
        },
    };
    let expected = "Embed Summary\n\
========================\n\
Templates:     1000 B ->     200 B ( 80.0% reduced, 1 files)\n\
Fonts:         2.0 KB ->     600 B ( 70.0% reduced, 2 files)\n\
Packages:\n\
\x20 @preview/cetz:0.3.2  1000 B -> 200 B  ( 80.0%)\n\
------------------------\n\
Compressed: 3.9 KB -> 1000 B (75.0% reduced, 6 files)\n\
Deduplicated: 5 unique blobs, 1 duplicates removed (-100 B)\n\
Total: 3.9 KB -> 900 B (77.5% reduced)\n";
    assert_eq!(stats.report(), expected);
}

#[test]
fn error_messages_name_the_failure() {
    assert_eq!(
        Error::EntryNotFound("main.typ".to_owned()).message(),
        "entry file not found: main.typ"
    );
    assert_eq!(Error::InvalidUtf8.message(), "entry file is not valid UTF-8");
    assert_eq!(Error::Decompression.message(), "decompression failed");
    assert_eq!(
        Error::Compilation("boom".to_owned()).message(),
        "compilation failed:\nboom"
    );
}
