//! Directory embedder: turns a tree of files into embeddable entries.
//!
//! Entries come out sorted by name at every level, whatever order they came
//! in, so the output is reproducible across machines and filesystems.
//! Hidden entries are skipped; a font filter restricts a fonts tree to
//! recognized font files and omits directories left empty by it. Each
//! file's bytes go through the compression cache, and running totals of
//! original and compressed sizes are kept.

use vstd::prelude::*;
use crate::cache::{
    CacheModel, CompressionCache, compress_step, sat_add, sat_add_usize,
};
use crate::config::{is_hidden, is_hidden_name, is_font_file, is_font_name};
use crate::scanner::{PackageSpec, PackageSpecView, pkg_label_spec};
use crate::text::{lex_lt, str_lt, lemma_lex_lt_connected};

verus! {

/// A file tree handed to the embedder: names and file contents, as read
/// from a directory.
pub enum FsEntry {
    File { name: String, data: Vec<u8> },
    Dir { name: String, entries: Vec<FsEntry> },
}

/// Mathematical value of an [`FsEntry`].
pub ghost enum FsEntryV {
    File { name: Seq<char>, data: Seq<u8> },
    Dir { name: Seq<char>, entries: Seq<FsEntryV> },
}

/// An embeddable entry: a file node referencing its blob by content
/// digest, or a directory node with its children.
pub enum EmbedEntry {
    File { name: String, hash: String },
    Dir { name: String, entries: Vec<EmbedEntry> },
}

/// Mathematical value of an [`EmbedEntry`].
pub ghost enum EmbedEntryV {
    File { name: Seq<char>, hash: Seq<char> },
    Dir { name: Seq<char>, entries: Seq<EmbedEntryV> },
}

/// The value of a file tree node.
pub open spec fn fs_view(e: FsEntry) -> FsEntryV
    decreases e,
{
    match e {
        FsEntry::File { name, data } => FsEntryV::File { name: name@, data: data@ },
        FsEntry::Dir { name, entries } => FsEntryV::Dir {
            name: name@,
            entries: fs_views(entries@),
        },
    }
}

/// The values of a sequence of file tree nodes.
pub open spec fn fs_views(s: Seq<FsEntry>) -> Seq<FsEntryV>
    decreases s,
{
    if s.len() == 0 {
        Seq::empty()
    } else {
        fs_views(s.drop_last()).push(fs_view(s.last()))
    }
}

pub proof fn lemma_fs_views(s: Seq<FsEntry>)
    ensures
        fs_views(s).len() == s.len(),
        forall|i: int| 0 <= i < s.len() ==> fs_views(s)[i] == fs_view(s[i]),
    decreases s.len(),
{
    if s.len() > 0 {
        lemma_fs_views(s.drop_last());
    }
}

/// The value of an embeddable entry.
pub open spec fn embed_view(e: EmbedEntry) -> EmbedEntryV
    decreases e,
{
    match e {
        EmbedEntry::File { name, hash } => EmbedEntryV::File { name: name@, hash: hash@ },
        EmbedEntry::Dir { name, entries } => EmbedEntryV::Dir {
            name: name@,
            entries: embed_views(entries@),
        },
    }
}

/// The values of a sequence of embeddable entries.
pub open spec fn embed_views(s: Seq<EmbedEntry>) -> Seq<EmbedEntryV>
    decreases s,
{
    if s.len() == 0 {
        Seq::empty()
    } else {
        embed_views(s.drop_last()).push(embed_view(s.last()))
    }
}

pub proof fn lemma_embed_views(s: Seq<EmbedEntry>)
    ensures
        embed_views(s).len() == s.len(),
        forall|i: int| 0 <= i < s.len() ==> embed_views(s)[i] == embed_view(s[i]),
    decreases s.len(),
{
    if s.len() > 0 {
        lemma_embed_views(s.drop_last());
    }
}

/// The name of an embeddable entry.
pub open spec fn embed_name_v(e: EmbedEntryV) -> Seq<char> {
    match e {
        EmbedEntryV::File { name, .. } => name,
        EmbedEntryV::Dir { name, .. } => name,
    }
}

/// Which files an embedding keeps: everything, or font files only.
#[derive(Clone, Copy)]
pub enum EmbedFilter {
    All,
    FontsOnly,
}

/// Result of embedding a directory: its entries sorted by name, and totals
/// of original bytes, compressed bytes and files embedded.
pub struct DirEmbedResult {
    pub entries: Vec<EmbedEntry>,
    pub original_size: usize,
    pub compressed_size: usize,
    pub file_count: usize,
}

/// Mathematical value of a [`DirEmbedResult`].
#[verifier::ext_equal]
pub ghost struct EmbedResultV {
    pub entries: Seq<EmbedEntryV>,
    pub original: nat,
    pub compressed: nat,
    pub files: nat,
}

/// The value of an embedding result.
pub open spec fn result_view(r: DirEmbedResult) -> EmbedResultV {
    EmbedResultV {
        entries: embed_views(r.entries@),
        original: r.original_size as nat,
        compressed: r.compressed_size as nat,
        files: r.file_count as nat,
    }
}

pub open spec fn empty_result() -> EmbedResultV {
    EmbedResultV { entries: Seq::empty(), original: 0, compressed: 0, files: 0 }
}

/// Where a new entry of the given name goes in a name-sorted sequence: the
/// first position whose entry has a strictly greater name.
pub open spec fn insert_position(s: Seq<EmbedEntryV>, name: Seq<char>) -> int
    decreases s,
{
    if s.len() == 0 {
        0
    } else if lex_lt(name, embed_name_v(s[0])) {
        0
    } else {
        1 + insert_position(s.drop_first(), name)
    }
}

pub proof fn lemma_insert_position(s: Seq<EmbedEntryV>, name: Seq<char>)
    ensures
        0 <= insert_position(s, name) <= s.len(),
        forall|i: int| 0 <= i < insert_position(s, name) ==> !lex_lt(name, embed_name_v(#[trigger] s[i])),
        insert_position(s, name) < s.len() ==> lex_lt(
            name,
            embed_name_v(s[insert_position(s, name)]),
        ),
    decreases s.len(),
{
    if s.len() > 0 && !lex_lt(name, embed_name_v(s[0])) {
        let t = s.drop_first();
        lemma_insert_position(t, name);
        let p = insert_position(t, name);
        assert(forall|i: int| 1 <= i < p + 1 ==> s[i] == t[i - 1]);
        if p < t.len() {
            assert(s[p + 1] == t[p]);
        }
    }
}

/// Merge the result of one node into an accumulated result: the node (if
/// any) is inserted at its sorted position, and the totals are added,
/// saturating at the machine word limit.
pub open spec fn merge_result(acc: EmbedResultV, one: EmbedResultV) -> EmbedResultV {
    EmbedResultV {
        entries: if one.entries.len() == 0 {
            acc.entries
        } else {
            acc.entries.insert(
                insert_position(acc.entries, embed_name_v(one.entries[0])),
                one.entries[0],
            )
        },
        original: sat_add(acc.original, one.original),
        compressed: sat_add(acc.compressed, one.compressed),
        files: sat_add(acc.files, one.files),
    }
}

/// Embedding one node: a hidden node contributes nothing; a file passing
/// the filter is compressed through the cache and becomes one file entry;
/// a directory embeds its children and becomes one directory entry, kept
/// when the filter is [`EmbedFilter::All`] or when children remain.
pub open spec fn embed_first(e: FsEntryV, f: EmbedFilter, m: CacheModel) -> (CacheModel, EmbedResultV)
    decreases e,
{
    match e {
        FsEntryV::File { name, data } => {
            if is_hidden_name(name) || !(f is All || is_font_name(name)) {
                (m, empty_result())
            } else {
                let step = compress_step(m, data);
                (
                    step.0,
                    EmbedResultV {
                        entries: seq![EmbedEntryV::File { name, hash: step.1.hash }],
                        original: data.len(),
                        compressed: step.1.len,
                        files: 1,
                    },
                )
            }
        },
        FsEntryV::Dir { name, entries } => {
            if is_hidden_name(name) {
                (m, empty_result())
            } else {
                let sub = embed_seq_from(m, empty_result(), entries, f);
                let keep = f is All || sub.1.entries.len() > 0;
                (
                    sub.0,
                    EmbedResultV {
                        entries: if keep {
                            seq![EmbedEntryV::Dir { name, entries: sub.1.entries }]
                        } else {
                            Seq::empty()
                        },
                        original: sub.1.original,
                        compressed: sub.1.compressed,
                        files: sub.1.files,
                    },
                )
            }
        },
    }
}

/// Embedding a sequence of nodes in order, folding each node's result into
/// the accumulator.
pub open spec fn embed_seq_from(
    m: CacheModel,
    acc: EmbedResultV,
    s: Seq<FsEntryV>,
    f: EmbedFilter,
) -> (CacheModel, EmbedResultV)
    decreases s,
{
    if s.len() == 0 {
        (m, acc)
    } else {
        let step = embed_first(s[0], f, m);
        embed_seq_from(step.0, merge_result(acc, step.1), s.drop_first(), f)
    }
}

/// Embedding a sequence of sibling nodes, starting from an empty result.
pub open spec fn embed_seq(s: Seq<FsEntryV>, f: EmbedFilter, m: CacheModel) -> (
    CacheModel,
    EmbedResultV,
) {
    embed_seq_from(m, empty_result(), s, f)
}

fn entry_name(e: &EmbedEntry) -> (r: &String)
    ensures
        r@ == embed_name_v(embed_view(*e)),
{
    match e {
        EmbedEntry::File { name, .. } => name,
        EmbedEntry::Dir { name, .. } => name,
    }
}

/// Insert an entry into a name-sorted entry list at its sorted position.
fn insert_entry(v: &mut Vec<EmbedEntry>, e: EmbedEntry)
    ensures
        embed_views(final(v)@) == embed_views(old(v)@).insert(
            insert_position(embed_views(old(v)@), embed_name_v(embed_view(e))),
            embed_view(e),
        ),
{
    let ghost dv = embed_views(old(v)@);
    let ghost ev = embed_view(e);
    let ghost nm = embed_name_v(ev);
    proof {
        lemma_embed_views(old(v)@);
    }
    let mut j: usize = 0;
    while j < v.len() && !str_lt(entry_name(&e).as_str(), entry_name(&v[j]).as_str())
        invariant
            j <= v.len(),
            *v == *old(v),
            dv == embed_views(v@),
            dv.len() == v@.len(),
            forall|i: int| 0 <= i < v@.len() ==> dv[i] == embed_view(v@[i]),
            ev == embed_view(e),
            nm == embed_name_v(ev),
            forall|i: int| 0 <= i < j ==> !lex_lt(nm, embed_name_v(#[trigger] dv[i])),
        decreases v.len() - j,
    {
        j = j + 1;
    }
    proof {
        lemma_insert_position_at(dv, nm, j as int);
    }
    let ghost pre = v@;
    v.insert(j, e);
    proof {
        lemma_embed_views(v@);
        assert forall|x: int|
            0 <= x < embed_views(v@).len() implies embed_views(v@)[x] == dv.insert(
            j as int,
            ev,
        )[x] by {
            if x < j {
                assert(v@[x] == pre[x]);
            } else if x == j {
                assert(embed_view(v@[x]) == ev);
            } else {
                assert(v@[x] == pre[x - 1]);
            }
        }
        assert(embed_views(v@) =~= dv.insert(j as int, ev));
    }
}

/// A position bounded by entries not greater and followed by a greater
/// entry is the insert position.
proof fn lemma_insert_position_at(s: Seq<EmbedEntryV>, name: Seq<char>, j: int)
    requires
        0 <= j <= s.len(),
        forall|i: int| 0 <= i < j ==> !lex_lt(name, embed_name_v(#[trigger] s[i])),
        j < s.len() ==> lex_lt(name, embed_name_v(s[j])),
    ensures
        insert_position(s, name) == j,
    decreases j,
{
    if j > 0 {
        let t = s.drop_first();
        assert(forall|i: int| 0 <= i < j - 1 ==> t[i] == s[i + 1]);
        if j - 1 < t.len() {
            assert(t[j - 1] == s[j]);
        }
        lemma_insert_position_at(t, name, j - 1);
    } else {
        if s.len() > 0 {
            assert(lex_lt(name, embed_name_v(s[0])));
        }
    }
}

/// Embed one file-tree node through the cache: the produced entry, if the
/// node contributes one, and the node's totals of original bytes,
/// compressed bytes and file count.
fn embed_entry(e: &FsEntry, filter: EmbedFilter, cache: &mut CompressionCache) -> (r: (
    Option<EmbedEntry>,
    usize,
    usize,
    usize,
))
    requires
        old(cache).wf(),
    ensures
        final(cache).wf(),
        ({
            let step = embed_first(fs_view(*e), filter, old(cache).model());
            &&& final(cache).model() == step.0
            &&& match r.0 {
                Some(en) => step.1.entries =~= seq![embed_view(en)],
                None => step.1.entries.len() == 0,
            }
            &&& r.1 as nat == step.1.original
            &&& r.2 as nat == step.1.compressed
            &&& r.3 as nat == step.1.files
        }),
    decreases *e,
{
    match e {
        FsEntry::File { name, data } => {
            let all = matches!(filter, EmbedFilter::All);
            if is_hidden(name.as_str()) || !(all || is_font_file(name.as_str())) {
                (None, 0, 0, 0)
            } else {
                let info = cache.compress(data.as_slice());
                (
                    (Some(EmbedEntry::File { name: name.clone(), hash: info.hash })),
                    data.len(),
                    info.compressed_len,
                    1,
                )
            }
        },
        FsEntry::Dir { name, entries } => {
            if is_hidden(name.as_str()) {
                (None, 0, 0, 0)
            } else {
                let sub = embed_entries_core(entries, filter, cache);
                let all = matches!(filter, EmbedFilter::All);
                let keep = all || sub.entries.len() > 0;
                if keep {
                    (
                        (Some(EmbedEntry::Dir { name: name.clone(), entries: sub.entries })),
                        sub.original_size,
                        sub.compressed_size,
                        sub.file_count,
                    )
                } else {
                    (None, sub.original_size, sub.compressed_size, sub.file_count)
                }
            }
        },
    }
}

/// Embed a list of sibling nodes through the cache, collecting their
/// entries sorted by name and the running totals.
fn embed_entries_core(entries: &Vec<FsEntry>, filter: EmbedFilter, cache: &mut CompressionCache)
    -> (r: DirEmbedResult)
    requires
        old(cache).wf(),
    ensures
        final(cache).wf(),
        ({
            let o = embed_seq(fs_views(entries@), filter, old(cache).model());
            &&& final(cache).model() == o.0
            &&& result_view(r) == o.1
        }),
    decreases entries,
{
    let ghost m0 = cache.model();
    let ghost all = fs_views(entries@);
    proof {
        lemma_fs_views(entries@);
        assert(all.subrange(0, all.len() as int) =~= all);
    }
    let mut out: Vec<EmbedEntry> = Vec::new();
    let mut original: usize = 0;
    let mut compressed: usize = 0;
    let mut files: usize = 0;
    let mut i: usize = 0;
    while i < entries.len()
        invariant
            i <= entries.len(),
            cache.wf(),
            all == fs_views(entries@),
            all.len() == entries@.len(),
            forall|x: int| 0 <= x < entries@.len() ==> all[x] == fs_view(entries@[x]),
            embed_seq_from(
                cache.model(),
                EmbedResultV {
                    entries: embed_views(out@),
                    original: original as nat,
                    compressed: compressed as nat,
                    files: files as nat,
                },
                all.subrange(i as int, all.len() as int),
                filter,
            ) == embed_seq(all, filter, m0),
        decreases entries.len() - i,
    {
        proof {
            assert(all.subrange(i as int, all.len() as int)[0] == all[i as int]);
            assert(all.subrange(i as int, all.len() as int).drop_first() =~= all.subrange(
                i + 1,
                all.len() as int,
            ));
        }
        let ghost acc_pre = EmbedResultV {
            entries: embed_views(out@),
            original: original as nat,
            compressed: compressed as nat,
            files: files as nat,
        };
        let ghost m_pre = cache.model();
        let (node, o, c, fc) = embed_entry(&entries[i], filter, cache);
        let ghost step = embed_first(all[i as int], filter, m_pre);
        proof {
            assert(fs_view(entries@[i as int]) == all[i as int]);
        }
        original = sat_add_usize(original, o);
        compressed = sat_add_usize(compressed, c);
        files = sat_add_usize(files, fc);
        match node {
            Some(en) => {
                let ghost env = embed_view(en);
                proof {
                    assert(step.1.entries =~= seq![env]);
                    assert(step.1.entries[0] == env);
                }
                insert_entry(&mut out, en);
            },
            None => {},
        }
        proof {
            assert(EmbedResultV {
                entries: embed_views(out@),
                original: original as nat,
                compressed: compressed as nat,
                files: files as nat,
            } =~= merge_result(acc_pre, step.1));
        }
        i = i + 1;
    }
    proof {
        assert(all.subrange(entries@.len() as int, all.len() as int) =~= Seq::<FsEntryV>::empty());
    }
    DirEmbedResult {
        entries: out,
        original_size: original,
        compressed_size: compressed,
        file_count: files,
    }
}

/// Embed a directory tree: every non-hidden file, at every level. The
/// caller reads the directory into `entries`; a nonexistent root is an
/// empty list and yields an empty result.
pub fn embed_dir(entries: &Vec<FsEntry>, cache: &mut CompressionCache) -> (r: DirEmbedResult)
    requires
        old(cache).wf(),
    ensures
        final(cache).wf(),
        final(cache).model() == embed_seq(fs_views(entries@), EmbedFilter::All, old(cache).model()).0,
        result_view(r) == embed_seq(fs_views(entries@), EmbedFilter::All, old(cache).model()).1,
{
    embed_entries_core(entries, EmbedFilter::All, cache)
}

/// Embed only the font files of a directory tree, omitting directories
/// that the filter leaves empty.
pub fn embed_fonts_dir(entries: &Vec<FsEntry>, cache: &mut CompressionCache) -> (r: DirEmbedResult)
    requires
        old(cache).wf(),
    ensures
        final(cache).wf(),
        final(cache).model() == embed_seq(
            fs_views(entries@),
            EmbedFilter::FontsOnly,
            old(cache).model(),
        ).0,
        result_view(r) == embed_seq(fs_views(entries@), EmbedFilter::FontsOnly, old(cache).model()).1,
{
    embed_entries_core(entries, EmbedFilter::FontsOnly, cache)
}

/// The values of a package list: each specifier with its file tree.
pub open spec fn pkgs_views(s: Seq<(PackageSpec, Vec<FsEntry>)>) -> Seq<(
    PackageSpecView,
    Seq<FsEntryV>,
)>
    decreases s,
{
    if s.len() == 0 {
        Seq::empty()
    } else {
        pkgs_views(s.drop_last()).push((s.last().0@, fs_views(s.last().1@)))
    }
}

pub proof fn lemma_pkgs_views(s: Seq<(PackageSpec, Vec<FsEntry>)>)
    ensures
        pkgs_views(s).len() == s.len(),
        forall|i: int|
            0 <= i < s.len() ==> pkgs_views(s)[i] == (s[i].0@, fs_views(s[i].1@)),
    decreases s.len(),
{
    if s.len() > 0 {
        lemma_pkgs_views(s.drop_last());
    }
}

/// Accumulated result of embedding packages: per-package statistics,
/// totals, and the namespace-rooted entries.
#[verifier::ext_equal]
pub ghost struct PkgEmbedV {
    pub infos: Seq<crate::stats::PackageInfoV>,
    pub total_original: nat,
    pub total_compressed: nat,
    pub entries: Seq<EmbedEntryV>,
}

/// Embedding one package: its tree is embedded whole, its statistics are
/// labelled, and its entries are wrapped in directory nodes for the
/// namespace, the name and the version.
pub open spec fn embed_one_package(m: CacheModel, p: PackageSpecView, tree: Seq<FsEntryV>) -> (
    CacheModel,
    crate::stats::PackageInfoV,
    EmbedEntryV,
) {
    let r = embed_seq(tree, EmbedFilter::All, m);
    (
        r.0,
        crate::stats::PackageInfoV {
            name: pkg_label_spec(p),
            original: r.1.original,
            compressed: r.1.compressed,
            files: r.1.files,
        },
        EmbedEntryV::Dir {
            name: p.namespace,
            entries: seq![
                EmbedEntryV::Dir {
                    name: p.name,
                    entries: seq![EmbedEntryV::Dir { name: p.version, entries: r.1.entries }],
                },
            ],
        },
    )
}

/// Embedding a list of packages in order: each package's node is inserted
/// into the namespace entries at its sorted position, and the totals are
/// added, saturating at the machine word limit.
pub open spec fn embed_packages_from(
    m: CacheModel,
    acc: PkgEmbedV,
    s: Seq<(PackageSpecView, Seq<FsEntryV>)>,
) -> (CacheModel, PkgEmbedV)
    decreases s.len(),
{
    if s.len() == 0 {
        (m, acc)
    } else {
        let one = embed_one_package(m, s[0].0, s[0].1);
        let acc2 = PkgEmbedV {
            infos: acc.infos.push(one.1),
            total_original: sat_add(acc.total_original, one.1.original),
            total_compressed: sat_add(acc.total_compressed, one.1.compressed),
            entries: acc.entries.insert(
                insert_position(acc.entries, embed_name_v(one.2)),
                one.2,
            ),
        };
        embed_packages_from(one.0, acc2, s.drop_first())
    }
}

pub open spec fn empty_pkg_embed() -> PkgEmbedV {
    PkgEmbedV { infos: Seq::empty(), total_original: 0, total_compressed: 0, entries: Seq::empty() }
}

/// Results of embedding all resolved packages.
pub struct EmbeddedPackages {
    /// Per-package statistics, in input order.
    pub infos: Vec<crate::stats::PackageInfo>,
    /// Total original size of all packages.
    pub total_original: usize,
    /// Total compressed size of all packages.
    pub total_compressed: usize,
    /// One namespace/name/version-rooted entry per package, sorted by
    /// namespace.
    pub namespace_entries: Vec<EmbedEntry>,
}

/// The value of an [`EmbeddedPackages`].
pub open spec fn pkgs_result_view(r: EmbeddedPackages) -> PkgEmbedV {
    PkgEmbedV {
        infos: r.infos.deep_view(),
        total_original: r.total_original as nat,
        total_compressed: r.total_compressed as nat,
        entries: embed_views(r.namespace_entries@),
    }
}

/// Embed every resolved package, collecting per-package statistics,
/// aggregate totals, and namespace-rooted entries sorted by namespace.
/// Each element pairs a package specifier with the file tree read from
/// its resolved directory.
pub fn embed_packages(pkgs: &Vec<(PackageSpec, Vec<FsEntry>)>, cache: &mut CompressionCache) -> (r:
    EmbeddedPackages)
    requires
        old(cache).wf(),
    ensures
        final(cache).wf(),
        ({
            let o = embed_packages_from(old(cache).model(), empty_pkg_embed(), pkgs_views(pkgs@));
            &&& final(cache).model() == o.0
            &&& pkgs_result_view(r) == o.1
        }),
{
    let ghost m0 = cache.model();
    let ghost all = pkgs_views(pkgs@);
    proof {
        lemma_pkgs_views(pkgs@);
        assert(all.subrange(0, all.len() as int) =~= all);
    }
    let mut infos: Vec<crate::stats::PackageInfo> = Vec::new();
    let mut total_original: usize = 0;
    let mut total_compressed: usize = 0;
    let mut out: Vec<EmbedEntry> = Vec::new();
    proof {
        assert(infos.deep_view() =~= Seq::<crate::stats::PackageInfoV>::empty());
        assert(embed_views(out@) =~= Seq::<EmbedEntryV>::empty());
        assert(PkgEmbedV {
            infos: infos.deep_view(),
            total_original: 0nat,
            total_compressed: 0nat,
            entries: embed_views(out@),
        } =~= empty_pkg_embed());
    }
    let mut i: usize = 0;
    while i < pkgs.len()
        invariant
            i <= pkgs.len(),
            cache.wf(),
            all == pkgs_views(pkgs@),
            all.len() == pkgs@.len(),
            forall|x: int| 0 <= x < pkgs@.len() ==> all[x] == (pkgs@[x].0@, fs_views(pkgs@[x].1@)),
            embed_packages_from(
                cache.model(),
                PkgEmbedV {
                    infos: infos.deep_view(),
                    total_original: total_original as nat,
                    total_compressed: total_compressed as nat,
                    entries: embed_views(out@),
                },
                all.subrange(i as int, all.len() as int),
            ) == embed_packages_from(m0, empty_pkg_embed(), all),
        decreases pkgs.len() - i,
    {
        proof {
            assert(all.subrange(i as int, all.len() as int)[0] == all[i as int]);
            assert(all.subrange(i as int, all.len() as int).drop_first() =~= all.subrange(
                i + 1,
                all.len() as int,
            ));
        }
        let ghost acc_pre = PkgEmbedV {
            infos: infos.deep_view(),
            total_original: total_original as nat,
            total_compressed: total_compressed as nat,
            entries: embed_views(out@),
        };
        let ghost m_pre = cache.model();
        let sub = embed_entries_core(&pkgs[i].1, EmbedFilter::All, cache);
        let label = pkgs[i].0.label();
        let info = crate::stats::PackageInfo {
            name: label,
            original_size: sub.original_size,
            compressed_size: sub.compressed_size,
            file_count: sub.file_count,
        };
        let ghost infos_pre = infos.deep_view();
        let ghost infov = info@;
        infos.push(info);
        proof {
            assert(infos.deep_view() =~= infos_pre.push(infov));
        }
        total_original = sat_add_usize(total_original, sub.original_size);
        total_compressed = sat_add_usize(total_compressed, sub.compressed_size);
        let version_node = EmbedEntry::Dir {
            name: pkgs[i].0.version.clone(),
            entries: sub.entries,
        };
        let mut name_children: Vec<EmbedEntry> = Vec::new();
        let ghost vnv = embed_view(version_node);
        name_children.push(version_node);
        proof {
            lemma_embed_views(name_children@);
            assert(embed_views(name_children@) =~= seq![vnv]);
        }
        let name_node = EmbedEntry::Dir { name: pkgs[i].0.name.clone(), entries: name_children };
        let mut ns_children: Vec<EmbedEntry> = Vec::new();
        let ghost nnv = embed_view(name_node);
        ns_children.push(name_node);
        proof {
            lemma_embed_views(ns_children@);
            assert(embed_views(ns_children@) =~= seq![nnv]);
        }
        let ns_node = EmbedEntry::Dir { name: pkgs[i].0.namespace.clone(), entries: ns_children };
        proof {
            let one_real = embed_one_package(m_pre, all[i as int].0, all[i as int].1);
            assert(embed_view(ns_node) == one_real.2);
        }
        insert_entry(&mut out, ns_node);
        proof {
            let one_real = embed_one_package(m_pre, all[i as int].0, all[i as int].1);
            assert(PkgEmbedV {
                infos: infos.deep_view(),
                total_original: total_original as nat,
                total_compressed: total_compressed as nat,
                entries: embed_views(out@),
            } =~= PkgEmbedV {
                infos: acc_pre.infos.push(one_real.1),
                total_original: sat_add(acc_pre.total_original, one_real.1.original),
                total_compressed: sat_add(acc_pre.total_compressed, one_real.1.compressed),
                entries: acc_pre.entries.insert(
                    insert_position(acc_pre.entries, embed_name_v(one_real.2)),
                    one_real.2,
                ),
            });
        }
        i = i + 1;
    }
    proof {
        assert(all.subrange(pkgs@.len() as int, all.len() as int) =~= Seq::<(
            PackageSpecView,
            Seq<FsEntryV>,
        )>::empty());
    }
    EmbeddedPackages { infos, total_original, total_compressed, namespace_entries: out }
}

/// Non-strict lexicographic order.
pub open spec fn lex_le(a: Seq<char>, b: Seq<char>) -> bool {
    lex_lt(a, b) || a == b
}

/// Entries in ascending name order.
pub open spec fn entries_sorted(s: Seq<EmbedEntryV>) -> bool {
    forall|i: int|
        0 <= i < s.len() - 1 ==> lex_le(embed_name_v(s[i]), embed_name_v(#[trigger] s[i + 1]))
}

proof fn lemma_insert_entry_sorted(s: Seq<EmbedEntryV>, e: EmbedEntryV)
    requires
        entries_sorted(s),
    ensures
        entries_sorted(s.insert(insert_position(s, embed_name_v(e)), e)),
{
    let nm = embed_name_v(e);
    let p = insert_position(s, nm);
    lemma_insert_position(s, nm);
    let t = s.insert(p, e);
    assert forall|i: int|
        0 <= i < t.len() - 1 implies lex_le(embed_name_v(t[i]), embed_name_v(#[trigger] t[i + 1])) by {
        if i + 1 < p {
            assert(t[i] == s[i] && t[i + 1] == s[i + 1]);
        } else if i + 1 == p {
            assert(t[i] == s[i] && t[i + 1] == e);
            assert(!lex_lt(nm, embed_name_v(s[i])));
            lemma_lex_lt_connected(embed_name_v(s[i]), nm);
        } else if i == p {
            assert(t[i] == e && t[i + 1] == s[i]);
            assert(lex_lt(nm, embed_name_v(s[i])));
        } else {
            assert(t[i] == s[i - 1] && t[i + 1] == s[i]);
            assert(lex_le(embed_name_v(s[i - 1]), embed_name_v(s[(i - 1) + 1])));
        }
    }
}

proof fn lemma_embed_seq_from_sorted(
    m: CacheModel,
    acc: EmbedResultV,
    s: Seq<FsEntryV>,
    f: EmbedFilter,
)
    requires
        entries_sorted(acc.entries),
    ensures
        entries_sorted(embed_seq_from(m, acc, s, f).1.entries),
    decreases s,
{
    if s.len() > 0 {
        let step = embed_first(s[0], f, m);
        let merged = merge_result(acc, step.1);
        if step.1.entries.len() > 0 {
            lemma_insert_entry_sorted(acc.entries, step.1.entries[0]);
        }
        lemma_embed_seq_from_sorted(step.0, merged, s.drop_first(), f);
    }
}

/// Ordering: whatever order a directory's entries came in, the embedded
/// entries come out in ascending name order.
pub proof fn lemma_embed_ordering(s: Seq<FsEntryV>, f: EmbedFilter, m: CacheModel)
    ensures
        entries_sorted(embed_seq(s, f, m).1.entries),
{
    lemma_embed_seq_from_sorted(m, empty_result(), s, f);
}

/// Sibling nodes that are all visible files with the same content.
pub open spec fn all_files_with(s: Seq<FsEntryV>, data: Seq<u8>) -> bool {
    forall|i: int|
        0 <= i < s.len() ==> ((#[trigger] s[i]) matches FsEntryV::File { name, data: d }
            && !crate::config::is_hidden_name(name) && d == data)
}

proof fn lemma_embed_dedup_hits(s: Seq<FsEntryV>, data: Seq<u8>, m: CacheModel, acc: EmbedResultV)
    requires
        all_files_with(s, data),
        m.blobs.contains_key(crate::cache::blake3_hex(data)),
        m.dedup_hits + s.len() <= usize::MAX,
    ensures
        ({
            let o = embed_seq_from(m, acc, s, EmbedFilter::All);
            &&& o.0.blobs == m.blobs
            &&& o.0.dedup_hits == m.dedup_hits + s.len()
            &&& o.1.entries.len() == acc.entries.len() + s.len()
        }),
    decreases s.len(),
{
    if s.len() > 0 {
        let step = embed_first(s[0], EmbedFilter::All, m);
        let merged = merge_result(acc, step.1);
        lemma_insert_position(acc.entries, embed_name_v(step.1.entries[0]));
        assert(all_files_with(s.drop_first(), data)) by {
            assert(forall|i: int| 0 <= i < s.drop_first().len() ==> s.drop_first()[i] == s[i + 1]);
        }
        lemma_embed_dedup_hits(s.drop_first(), data, step.0, merged);
    }
}

/// Deduplication through the embedder: embedding `n` sibling files with
/// identical content, none of it seen before, stores exactly one new blob,
/// produces `n` entries referencing it, and counts `n - 1` duplicates.
pub proof fn lemma_embed_dedup(s: Seq<FsEntryV>, data: Seq<u8>, m: CacheModel)
    requires
        s.len() >= 1,
        all_files_with(s, data),
        !m.blobs.contains_key(crate::cache::blake3_hex(data)),
        m.blobs.dom().finite(),
        m.dedup_hits + s.len() - 1 <= usize::MAX,
    ensures
        ({
            let o = embed_seq(s, EmbedFilter::All, m);
            &&& o.0.blobs.dom() == m.blobs.dom().insert(crate::cache::blake3_hex(data))
            &&& o.0.blobs.dom().len() == m.blobs.dom().len() + 1
            &&& o.0.dedup_hits == m.dedup_hits + s.len() - 1
            &&& o.1.entries.len() == s.len()
        }),
{
    let h = crate::cache::blake3_hex(data);
    let step = embed_first(s[0], EmbedFilter::All, m);
    let merged = merge_result(empty_result(), step.1);
    lemma_insert_position(Seq::<EmbedEntryV>::empty(), embed_name_v(step.1.entries[0]));
    assert(step.0.blobs.contains_key(h));
    assert(all_files_with(s.drop_first(), data)) by {
        assert(forall|i: int| 0 <= i < s.drop_first().len() ==> s.drop_first()[i] == s[i + 1]);
    }
    lemma_embed_dedup_hits(s.drop_first(), data, step.0, merged);
    assert(step.0.blobs.dom() =~= m.blobs.dom().insert(h));
}

} // verus!
