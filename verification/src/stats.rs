//! Statistics for embedded content: per-category and per-package sizes,
//! deduplication totals, and human-readable size rendering.

use vstd::prelude::*;
use crate::text::{dec_of, digit_char, u64_to_dec, digit_str};

verus! {

/// Statistics for deduplication across all categories.
#[derive(Debug, Clone, Copy)]
pub struct DedupStats {
    /// Total number of files, before deduplication.
    pub total_files: usize,
    /// Number of unique blobs after deduplication.
    pub unique_blobs: usize,
    /// Number of duplicate files removed.
    pub duplicate_count: usize,
    /// Bytes saved by deduplication.
    pub saved_bytes: usize,
}

/// Statistics for one category of files (templates, fonts).
#[derive(Debug, Clone, Copy)]
pub struct CategoryStats {
    /// Original uncompressed size in bytes.
    pub original_size: usize,
    /// Compressed size in bytes.
    pub compressed_size: usize,
    /// Number of files.
    pub file_count: usize,
}

/// Statistics for a single package.
#[derive(Debug, Clone)]
pub struct PackageInfo {
    /// Package label with namespace and version.
    pub name: String,
    /// Original uncompressed size in bytes.
    pub original_size: usize,
    /// Compressed size in bytes.
    pub compressed_size: usize,
    /// Number of files in this package.
    pub file_count: usize,
}

/// Mathematical value of a [`PackageInfo`].
pub ghost struct PackageInfoV {
    pub name: Seq<char>,
    pub original: nat,
    pub compressed: nat,
    pub files: nat,
}

impl View for PackageInfo {
    type V = PackageInfoV;

    open spec fn view(&self) -> PackageInfoV {
        PackageInfoV {
            name: self.name@,
            original: self.original_size as nat,
            compressed: self.compressed_size as nat,
            files: self.file_count as nat,
        }
    }
}

impl DeepView for PackageInfo {
    type V = PackageInfoV;

    open spec fn deep_view(&self) -> PackageInfoV {
        self.view()
    }
}

/// Statistics for all packages.
#[derive(Debug, Clone)]
pub struct PackageStats {
    /// Per-package statistics.
    pub packages: Vec<PackageInfo>,
    /// Total original size of all packages.
    pub total_original: usize,
    /// Total compressed size of all packages.
    pub total_compressed: usize,
}

/// Compression statistics for all embedded content.
#[derive(Debug, Clone)]
pub struct EmbedStats {
    /// Template files statistics.
    pub templates: CategoryStats,
    /// Package files statistics.
    pub packages: PackageStats,
    /// Font files statistics.
    pub fonts: CategoryStats,
    /// Deduplication statistics.
    pub dedup: DedupStats,
}

/// The file counts of a package list, summed.
pub open spec fn pkg_files_sum(s: Seq<PackageInfo>) -> int
    decreases s.len(),
{
    if s.len() == 0 {
        0
    } else {
        pkg_files_sum(s.drop_last()) + s.last().file_count
    }
}

impl EmbedStats {
    /// The totals fit the machine word, and the deduplication savings do
    /// not exceed the compressed total.
    pub open spec fn wf(&self) -> bool {
        &&& self.templates.original_size + self.packages.total_original
            + self.fonts.original_size <= usize::MAX
        &&& self.templates.compressed_size + self.packages.total_compressed
            + self.fonts.compressed_size <= usize::MAX
        &&& self.dedup.saved_bytes <= self.templates.compressed_size
            + self.packages.total_compressed + self.fonts.compressed_size
        &&& self.templates.file_count + self.fonts.file_count + pkg_files_sum(
            self.packages.packages@,
        ) <= usize::MAX
    }

    /// Total original size across all categories.
    pub fn total_original(&self) -> (r: usize)
        requires
            self.wf(),
        ensures
            r == self.templates.original_size + self.packages.total_original
                + self.fonts.original_size,
    {
        self.templates.original_size + self.packages.total_original + self.fonts.original_size
    }

    /// Total compressed size across all categories.
    pub fn total_compressed(&self) -> (r: usize)
        requires
            self.wf(),
        ensures
            r == self.templates.compressed_size + self.packages.total_compressed
                + self.fonts.compressed_size,
    {
        self.templates.compressed_size + self.packages.total_compressed
            + self.fonts.compressed_size
    }

    /// Total size after deduplication: the compressed total less the
    /// bytes saved by deduplication; the actual binary footprint.
    pub fn total_deduplicated(&self) -> (r: usize)
        requires
            self.wf(),
        ensures
            r == self.templates.compressed_size + self.packages.total_compressed
                + self.fonts.compressed_size - self.dedup.saved_bytes,
    {
        self.total_compressed() - self.dedup.saved_bytes
    }

    /// Total number of files across all categories.
    pub fn total_file_count(&self) -> (r: usize)
        requires
            self.wf(),
        ensures
            r == self.templates.file_count + self.fonts.file_count + pkg_files_sum(
                self.packages.packages@,
            ),
    {
        let mut sum: usize = 0;
        let mut i: usize = 0;
        let n = self.packages.packages.len();
        proof {
            lemma_pkg_files_sum_bounds(self.packages.packages@, n as int);
        }
        while i < n
            invariant
                i <= n,
                n == self.packages.packages@.len(),
                self.wf(),
                sum == pkg_files_sum(self.packages.packages@.take(i as int)),
            decreases n - i,
        {
            proof {
                let s = self.packages.packages@;
                assert(s.take(i + 1).drop_last() =~= s.take(i as int));
                assert(s.take(i + 1).last() == s[i as int]);
                lemma_pkg_files_sum_prefix(s, i + 1);
            }
            sum = sum + self.packages.packages[i].file_count;
            i = i + 1;
        }
        proof {
            assert(self.packages.packages@.take(n as int) =~= self.packages.packages@);
        }
        self.templates.file_count + self.fonts.file_count + sum
    }
}

/// Partial sums of file counts are non-negative.
proof fn lemma_pkg_files_sum_bounds(s: Seq<PackageInfo>, n: int)
    requires
        0 <= n <= s.len(),
    ensures
        0 <= pkg_files_sum(s.take(n)),
    decreases n,
{
    if n > 0 {
        assert(s.take(n).drop_last() =~= s.take(n - 1));
        lemma_pkg_files_sum_bounds(s, n - 1);
    }
}

/// A prefix sum never exceeds the whole sum.
proof fn lemma_pkg_files_sum_prefix(s: Seq<PackageInfo>, n: int)
    requires
        0 <= n <= s.len(),
    ensures
        pkg_files_sum(s.take(n)) <= pkg_files_sum(s),
        0 <= pkg_files_sum(s.take(n)),
    decreases s.len() - n,
{
    if n == s.len() {
        assert(s.take(n) =~= s);
        lemma_pkg_files_sum_bounds(s, n);
    } else {
        lemma_pkg_files_sum_prefix(s, n + 1);
        assert(s.take(n + 1).drop_last() =~= s.take(n));
        lemma_pkg_files_sum_bounds(s, n);
    }
}

/// Round `num / den` to the nearest integer, ties to even.
pub open spec fn round_half_even(num: nat, den: nat) -> nat
    recommends
        den > 0,
{
    let q = num / den;
    let r = num % den;
    if 2 * r > den || (2 * r == den && q % 2 == 1) {
        q + 1
    } else {
        q
    }
}

fn round_half_even_exec(num: u64, den: u64) -> (r: u64)
    requires
        0 < den <= 0x100000,
        num < 0x8000_0000_0000_0000,
    ensures
        r == round_half_even(num as nat, den as nat),
{
    let q = num / den;
    let rem = num % den;
    if rem >= den - rem + (if q % 2 == 1 { 0 } else { 1 }) {
        q + 1
    } else {
        q
    }
}

/// The rendering of a byte count: plain bytes below one binary kilobyte;
/// kilobytes with one decimal below one binary megabyte; megabytes with
/// two decimals from there on. Fractions round to nearest, ties to even.
pub open spec fn format_size_spec(bytes: nat) -> Seq<char> {
    if bytes >= 0x100000 {
        let whole = bytes / 0x100000;
        let frac = round_half_even((bytes % 0x100000) * 100, 0x100000);
        if frac == 100 {
            dec_of(whole + 1) + ".00 MB"@
        } else {
            dec_of(whole) + "."@ + seq![digit_char((frac / 10) as int)] + seq![
                digit_char((frac % 10) as int),
            ] + " MB"@
        }
    } else if bytes >= 1024 {
        let scaled = round_half_even(bytes * 10, 1024);
        dec_of(scaled / 10) + "."@ + seq![digit_char((scaled % 10) as int)] + " KB"@
    } else {
        dec_of(bytes) + " B"@
    }
}

/// A run of spaces.
pub open spec fn spaces(n: nat) -> Seq<char> {
    Seq::new(n, |i: int| ' ')
}

/// Pad on the left with spaces to the given width.
pub open spec fn pad_left_spec(s: Seq<char>, w: nat) -> Seq<char> {
    if s.len() >= w {
        s
    } else {
        spaces((w - s.len()) as nat) + s
    }
}

/// Pad on the right with spaces to the given width.
pub open spec fn pad_right_spec(s: Seq<char>, w: nat) -> Seq<char> {
    if s.len() >= w {
        s
    } else {
        s + spaces((w - s.len()) as nat)
    }
}

fn str_char_len(s: &String) -> (r: usize)
    ensures
        r == s@.len(),
{
    s.as_str().unicode_len()
}

fn pad_left(s: String, w: usize) -> (r: String)
    ensures
        r@ == pad_left_spec(s@, w as nat),
{
    let n = str_char_len(&s);
    if n >= w {
        return s;
    }
    let mut out = String::new();
    let mut i: usize = 0;
    proof {
        reveal_strlit(" ");
    }
    while i < w - n
        invariant
            i <= w - n,
            " "@ =~= seq![' '],
            out@ =~= spaces(i as nat),
        decreases w - n - i,
    {
        out.append(" ");
        proof {
            assert(out@ =~= spaces((i + 1) as nat));
        }
        i = i + 1;
    }
    out.append(s.as_str());
    proof {
        assert(out@ =~= pad_left_spec(s@, w as nat));
    }
    out
}

fn pad_right(s: String, w: usize) -> (r: String)
    ensures
        r@ == pad_right_spec(s@, w as nat),
{
    let n = str_char_len(&s);
    if n >= w {
        return s;
    }
    let mut out = s;
    let ghost sv = out@;
    let mut i: usize = 0;
    proof {
        reveal_strlit(" ");
    }
    while i < w - n
        invariant
            i <= w - n,
            n == sv.len(),
            " "@ =~= seq![' '],
            out@ =~= sv + spaces(i as nat),
        decreases w - n - i,
    {
        out.append(" ");
        proof {
            assert(out@ =~= sv + spaces((i + 1) as nat));
        }
        i = i + 1;
    }
    proof {
        assert(out@ =~= pad_right_spec(sv, w as nat));
    }
    out
}

/// The size reduction from `original` to `compressed`, in tenths of a
/// percent of the original, rounded to nearest with ties to even;
/// negative when the compressed form is larger, and zero when the
/// original is empty.
pub open spec fn reduction_tenths(original: nat, compressed: nat) -> int {
    if original == 0 {
        0
    } else if compressed <= original {
        round_half_even(((original - compressed) * 1000) as nat, original) as int
    } else {
        -(round_half_even(((compressed - original) * 1000) as nat, original) as int)
    }
}

/// A tenths value rendered with one decimal, `-` first when negative.
pub open spec fn tenths_str(t: int) -> Seq<char> {
    if t < 0 {
        "-"@ + dec_of(((-t) / 10) as nat) + "."@ + seq![digit_char((-t) % 10)]
    } else {
        dec_of((t / 10) as nat) + "."@ + seq![digit_char(t % 10)]
    }
}

/// The reduction percentage rendered with one decimal.
pub open spec fn percent_str(original: nat, compressed: nat) -> Seq<char> {
    tenths_str(reduction_tenths(original, compressed))
}

fn round_half_even_wide(num: u128, den: u128) -> (r: u128)
    requires
        0 < den,
        num < 0x8000_0000_0000_0000_0000_0000_0000_0000,
        den < 0x8000_0000_0000_0000_0000_0000_0000_0000,
    ensures
        r == round_half_even(num as nat, den as nat),
{
    let q = num / den;
    let rem = num % den;
    if rem >= den - rem + (if q % 2 == 1 { 0 } else { 1 }) {
        q + 1
    } else {
        q
    }
}

fn tenths_to_string(neg: bool, t: u128) -> (r: String)
    requires
        neg ==> t > 0,
    ensures
        r@ == tenths_str(if neg { -(t as int) } else { t as int }),
{
    let mut s = if neg {
        "-".to_owned()
    } else {
        String::new()
    };
    proof {
        if !neg {
            assert(s@ + dec_of((t / 10) as nat) =~= dec_of((t / 10) as nat));
        }
    }
    let dec = crate::text::u128_to_dec(t / 10);
    s.append(dec.as_str());
    s.append(".");
    s.append(digit_str((t % 10) as u64));
    proof {
        reveal_strlit(".");
        assert(s@ =~= tenths_str(if neg { -(t as int) } else { t as int }));
    }
    s
}

/// Render the reduction from `original` to `compressed` as a percentage
/// with one decimal.
pub fn reduction_percent(original: usize, compressed: usize) -> (r: String)
    ensures
        r@ == percent_str(original as nat, compressed as nat),
{
    if original == 0 {
        let s = tenths_to_string(false, 0);
        return s;
    }
    if compressed <= original {
        let num = ((original - compressed) as u128) * 1000;
        let t = round_half_even_wide(num, original as u128);
        tenths_to_string(false, t)
    } else {
        let num = ((compressed - original) as u128) * 1000;
        let t = round_half_even_wide(num, original as u128);
        if t == 0 {
            tenths_to_string(false, 0)
        } else {
            proof {
                assert(reduction_tenths(original as nat, compressed as nat) == -(t as int));
            }
            tenths_to_string(true, t)
        }
    }
}

/// Format a byte count for humans.
pub fn format_size(bytes: usize) -> (r: String)
    ensures
        r@ == format_size_spec(bytes as nat),
{
    let b = bytes as u64;
    if b >= 0x100000 {
        let whole = b / 0x100000;
        let frac = round_half_even_exec((b % 0x100000) * 100, 0x100000);
        if frac == 100 {
            let mut s = u64_to_dec(whole + 1);
            s.append(".00 MB");
            proof {
                reveal_strlit(".00 MB");
                assert(s@ =~= format_size_spec(bytes as nat));
            }
            s
        } else {
            let mut s = u64_to_dec(whole);
            s.append(".");
            s.append(digit_str(frac / 10));
            s.append(digit_str(frac % 10));
            s.append(" MB");
            proof {
                reveal_strlit(".");
                reveal_strlit(" MB");
                assert(s@ =~= format_size_spec(bytes as nat));
            }
            s
        }
    } else if b >= 1024 {
        let scaled = round_half_even_exec(b * 10, 1024);
        let mut s = u64_to_dec(scaled / 10);
        s.append(".");
        s.append(digit_str(scaled % 10));
        s.append(" KB");
        proof {
            reveal_strlit(".");
            reveal_strlit(" KB");
            assert(s@ =~= format_size_spec(bytes as nat));
        }
        s
    } else {
        let mut s = u64_to_dec(b);
        s.append(" B");
        proof {
            reveal_strlit(" B");
            assert(s@ =~= format_size_spec(bytes as nat));
        }
        s
    }
}

/// One category line of the report: padded sizes, the reduction, and the
/// file count.
pub open spec fn category_line(label: Seq<char>, o: nat, c: nat, files: nat) -> Seq<char> {
    label + pad_left_spec(format_size_spec(o), 9) + " -> "@ + pad_left_spec(format_size_spec(c), 9)
        + " ("@ + pad_left_spec(percent_str(o, c), 5) + "% reduced, "@ + dec_of(files)
        + " files)\n"@
}

/// The widest package name.
pub open spec fn name_width(s: Seq<PackageInfo>) -> nat
    decreases s.len(),
{
    if s.len() == 0 {
        0
    } else {
        let w = name_width(s.drop_last());
        if s.last().name@.len() > w {
            s.last().name@.len()
        } else {
            w
        }
    }
}

/// The widest rendered original size.
pub open spec fn orig_width(s: Seq<PackageInfo>) -> nat
    decreases s.len(),
{
    if s.len() == 0 {
        0
    } else {
        let w = orig_width(s.drop_last());
        let l = format_size_spec(s.last().original_size as nat).len();
        if l > w {
            l
        } else {
            w
        }
    }
}

/// The widest rendered compressed size.
pub open spec fn comp_width(s: Seq<PackageInfo>) -> nat
    decreases s.len(),
{
    if s.len() == 0 {
        0
    } else {
        let w = comp_width(s.drop_last());
        let l = format_size_spec(s.last().compressed_size as nat).len();
        if l > w {
            l
        } else {
            w
        }
    }
}

/// One package line of the report, aligned to the given column widths.
pub open spec fn package_line(p: PackageInfo, nw: nat, ow: nat, cw: nat) -> Seq<char> {
    "  "@ + pad_right_spec(p.name@, nw) + "  "@ + pad_left_spec(
        format_size_spec(p.original_size as nat),
        ow,
    ) + " -> "@ + pad_left_spec(format_size_spec(p.compressed_size as nat), cw) + "  ("@
        + pad_left_spec(percent_str(p.original_size as nat, p.compressed_size as nat), 5)
        + "%)\n"@
}

/// The package lines of the report, in order.
pub open spec fn package_lines(s: Seq<PackageInfo>, nw: nat, ow: nat, cw: nat) -> Seq<char>
    decreases s.len(),
{
    if s.len() == 0 {
        Seq::empty()
    } else {
        package_lines(s.drop_last(), nw, ow, cw) + package_line(s.last(), nw, ow, cw)
    }
}

/// The whole report: a header; one line for the templates and one for the
/// fonts when they hold files; the package table when packages were
/// embedded; the compressed totals; the deduplication line when
/// duplicates were removed; and the final footprint.
pub open spec fn report_spec(st: EmbedStats) -> Seq<char> {
    let to = (st.templates.original_size + st.packages.total_original
        + st.fonts.original_size) as nat;
    let tc = (st.templates.compressed_size + st.packages.total_compressed
        + st.fonts.compressed_size) as nat;
    let td = (tc - st.dedup.saved_bytes) as nat;
    let files = (st.templates.file_count + st.fonts.file_count + pkg_files_sum(
        st.packages.packages@,
    )) as nat;
    let head = "Embed Summary\n========================\n"@;
    let tl = if st.templates.file_count > 0 {
        category_line(
            "Templates:  "@,
            st.templates.original_size as nat,
            st.templates.compressed_size as nat,
            st.templates.file_count as nat,
        )
    } else {
        Seq::<char>::empty()
    };
    let fl = if st.fonts.file_count > 0 {
        category_line(
            "Fonts:      "@,
            st.fonts.original_size as nat,
            st.fonts.compressed_size as nat,
            st.fonts.file_count as nat,
        )
    } else {
        Seq::<char>::empty()
    };
    let pk = if st.packages.packages@.len() > 0 {
        "Packages:\n"@ + package_lines(
            st.packages.packages@,
            name_width(st.packages.packages@),
            orig_width(st.packages.packages@),
            comp_width(st.packages.packages@),
        )
    } else {
        Seq::<char>::empty()
    };
    let sep = "------------------------\n"@;
    let comp = compressed_line_spec(to, tc, files);
    let dd = if st.dedup.duplicate_count > 0 {
        dedup_line_spec(
            st.dedup.unique_blobs as nat,
            st.dedup.duplicate_count as nat,
            st.dedup.saved_bytes as nat,
        )
    } else {
        Seq::<char>::empty()
    };
    let tot = total_line_spec(to, td);
    head + tl + fl + pk + sep + comp + dd + tot
}

/// The compressed-totals line of the report.
pub open spec fn compressed_line_spec(to: nat, tc: nat, files: nat) -> Seq<char> {
    "Compressed: "@ + format_size_spec(to) + " -> "@ + format_size_spec(tc) + " ("@ + percent_str(
        to,
        tc,
    ) + "% reduced, "@ + dec_of(files) + " files)\n"@
}

/// The deduplication line of the report.
pub open spec fn dedup_line_spec(unique: nat, dup: nat, saved: nat) -> Seq<char> {
    "Deduplicated: "@ + dec_of(unique) + " unique blobs, "@ + dec_of(dup)
        + " duplicates removed (-"@ + format_size_spec(saved) + ")\n"@
}

/// The final footprint line of the report.
pub open spec fn total_line_spec(to: nat, td: nat) -> Seq<char> {
    "Total: "@ + format_size_spec(to) + " -> "@ + format_size_spec(td) + " ("@ + percent_str(
        to,
        td,
    ) + "% reduced)\n"@
}

fn compressed_line(to: usize, tc: usize, files: usize) -> (r: String)
    ensures
        r@ == compressed_line_spec(to as nat, tc as nat, files as nat),
{
    let mut s = "Compressed: ".to_owned();
    s.append(format_size(to).as_str());
    s.append(" -> ");
    s.append(format_size(tc).as_str());
    s.append(" (");
    s.append(reduction_percent(to, tc).as_str());
    s.append("% reduced, ");
    let dec = u64_to_dec(files as u64);
    s.append(dec.as_str());
    s.append(" files)\n");
    proof {
        assert(s@ =~= compressed_line_spec(to as nat, tc as nat, files as nat));
    }
    s
}

fn dedup_line(unique: usize, dup: usize, saved: usize) -> (r: String)
    ensures
        r@ == dedup_line_spec(unique as nat, dup as nat, saved as nat),
{
    let mut s = "Deduplicated: ".to_owned();
    let unique_dec = u64_to_dec(unique as u64);
    s.append(unique_dec.as_str());
    s.append(" unique blobs, ");
    let dup_dec = u64_to_dec(dup as u64);
    s.append(dup_dec.as_str());
    s.append(" duplicates removed (-");
    s.append(format_size(saved).as_str());
    s.append(")\n");
    proof {
        assert(s@ =~= dedup_line_spec(unique as nat, dup as nat, saved as nat));
    }
    s
}

fn total_line(to: usize, td: usize) -> (r: String)
    ensures
        r@ == total_line_spec(to as nat, td as nat),
{
    let mut s = "Total: ".to_owned();
    s.append(format_size(to).as_str());
    s.append(" -> ");
    s.append(format_size(td).as_str());
    s.append(" (");
    s.append(reduction_percent(to, td).as_str());
    s.append("% reduced)\n");
    proof {
        assert(s@ =~= total_line_spec(to as nat, td as nat));
    }
    s
}

fn category_line_exec(label: &str, o: usize, c: usize, files: usize) -> (r: String)
    ensures
        r@ == category_line(label@, o as nat, c as nat, files as nat),
{
    let mut s = label.to_owned();
    s.append(pad_left(format_size(o), 9).as_str());
    s.append(" -> ");
    s.append(pad_left(format_size(c), 9).as_str());
    s.append(" (");
    s.append(pad_left(reduction_percent(o, c), 5).as_str());
    s.append("% reduced, ");
    let dec = u64_to_dec(files as u64);
    s.append(dec.as_str());
    s.append(" files)\n");
    proof {
        assert(s@ =~= category_line(label@, o as nat, c as nat, files as nat));
    }
    s
}

fn package_line_exec(p: &PackageInfo, nw: usize, ow: usize, cw: usize) -> (r: String)
    ensures
        r@ == package_line(*p, nw as nat, ow as nat, cw as nat),
{
    let mut s = "  ".to_owned();
    s.append(pad_right(p.name.clone(), nw).as_str());
    s.append("  ");
    s.append(pad_left(format_size(p.original_size), ow).as_str());
    s.append(" -> ");
    s.append(pad_left(format_size(p.compressed_size), cw).as_str());
    s.append("  (");
    s.append(pad_left(reduction_percent(p.original_size, p.compressed_size), 5).as_str());
    s.append("%)\n");
    proof {
        assert(s@ =~= package_line(*p, nw as nat, ow as nat, cw as nat));
    }
    s
}

impl EmbedStats {
    /// Render the report described by [`report_spec`]: the summary table
    /// of sizes, reductions and deduplication for all embedded content.
    #[verifier::rlimit(60)]
    pub fn report(&self) -> (r: String)
        requires
            self.wf(),
        ensures
            r@ == report_spec(*self),
    {
        let pkgs = &self.packages.packages;
        let ghost pv = pkgs@;
        let mut nw: usize = 0;
        let mut ow: usize = 0;
        let mut cw: usize = 0;
        let mut i: usize = 0;
        while i < pkgs.len()
            invariant
                i <= pkgs.len(),
                pv == pkgs@,
                nw == name_width(pv.take(i as int)),
                ow == orig_width(pv.take(i as int)),
                cw == comp_width(pv.take(i as int)),
            decreases pkgs.len() - i,
        {
            proof {
                assert(pv.take(i + 1).drop_last() =~= pv.take(i as int));
                assert(pv.take(i + 1).last() == pv[i as int]);
            }
            let nl = str_char_len(&pkgs[i].name);
            if nl > nw {
                nw = nl;
            }
            let ol = str_char_len(&format_size(pkgs[i].original_size));
            if ol > ow {
                ow = ol;
            }
            let cl = str_char_len(&format_size(pkgs[i].compressed_size));
            if cl > cw {
                cw = cl;
            }
            i = i + 1;
        }
        proof {
            assert(pv.take(pkgs@.len() as int) =~= pv);
        }

        let mut s = "Embed Summary\n========================\n".to_owned();
        let ghost head = "Embed Summary\n========================\n"@;
        let ghost tl = if self.templates.file_count > 0 {
            category_line(
                "Templates:  "@,
                self.templates.original_size as nat,
                self.templates.compressed_size as nat,
                self.templates.file_count as nat,
            )
        } else {
            Seq::<char>::empty()
        };
        let ghost fl = if self.fonts.file_count > 0 {
            category_line(
                "Fonts:      "@,
                self.fonts.original_size as nat,
                self.fonts.compressed_size as nat,
                self.fonts.file_count as nat,
            )
        } else {
            Seq::<char>::empty()
        };
        if self.templates.file_count > 0 {
            s.append(
                category_line_exec(
                    "Templates:  ",
                    self.templates.original_size,
                    self.templates.compressed_size,
                    self.templates.file_count,
                ).as_str(),
            );
        }
        proof {
            assert(s@ =~= head + tl);
        }
        if self.fonts.file_count > 0 {
            s.append(
                category_line_exec(
                    "Fonts:      ",
                    self.fonts.original_size,
                    self.fonts.compressed_size,
                    self.fonts.file_count,
                ).as_str(),
            );
        }
        proof {
            assert(s@ =~= head + tl + fl);
        }
        let ghost pk = if pv.len() > 0 {
            "Packages:\n"@ + package_lines(pv, name_width(pv), orig_width(pv), comp_width(pv))
        } else {
            Seq::<char>::empty()
        };
        if pkgs.len() > 0 {
            s.append("Packages:\n");
            let ghost table_start = s@;
            let mut j: usize = 0;
            while j < pkgs.len()
                invariant
                    j <= pkgs.len(),
                    pv == pkgs@,
                    nw == name_width(pv),
                    ow == orig_width(pv),
                    cw == comp_width(pv),
                    s@ == table_start + package_lines(
                        pv.take(j as int),
                        nw as nat,
                        ow as nat,
                        cw as nat,
                    ),
                decreases pkgs.len() - j,
            {
                proof {
                    assert(pv.take(j + 1).drop_last() =~= pv.take(j as int));
                    assert(pv.take(j + 1).last() == pv[j as int]);
                }
                s.append(package_line_exec(&pkgs[j], nw, ow, cw).as_str());
                proof {
                    assert(s@ =~= table_start + package_lines(
                        pv.take(j + 1),
                        nw as nat,
                        ow as nat,
                        cw as nat,
                    ));
                }
                j = j + 1;
            }
            proof {
                assert(pv.take(pkgs@.len() as int) =~= pv);
            }
        }
        proof {
            assert(s@ =~= head + tl + fl + pk);
        }
        s.append("------------------------\n");
        let to = self.total_original();
        let tc = self.total_compressed();
        let td = self.total_deduplicated();
        let files = self.total_file_count();
        s.append(compressed_line(to, tc, files).as_str());
        proof {
            assert(s@ =~= head + tl + fl + pk + "------------------------\n"@ + compressed_line_spec(
                to as nat,
                tc as nat,
                files as nat,
            ));
        }
        let ghost dd = if self.dedup.duplicate_count > 0 {
            dedup_line_spec(
                self.dedup.unique_blobs as nat,
                self.dedup.duplicate_count as nat,
                self.dedup.saved_bytes as nat,
            )
        } else {
            Seq::<char>::empty()
        };
        if self.dedup.duplicate_count > 0 {
            s.append(
                dedup_line(
                    self.dedup.unique_blobs,
                    self.dedup.duplicate_count,
                    self.dedup.saved_bytes,
                ).as_str(),
            );
        }
        s.append(total_line(to, td).as_str());
        proof {
            assert(s@ =~= report_spec(*self));
        }
        s
    }
}

} // verus!
