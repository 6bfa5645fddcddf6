//! Embedded file resolver for templates and packages.
//!
//! Files are stored compressed and decompressed only when accessed. The
//! embedded trees are flattened once into path-keyed tables; package files
//! are keyed by `namespace/name/version/path`.

use vstd::prelude::*;
use crate::cache::{pairs_map, assoc_get, clone_bytes, zstd_decompress, zstd_of};
use crate::embed::{FsEntry, FsEntryV, fs_views};
use crate::error::Error;
use crate::scanner::PackageSpec;

verus! {

/// A path with every backslash turned into a forward slash.
pub open spec fn normalized(s: Seq<char>) -> Seq<char> {
    Seq::new(
        s.len(),
        |i: int|
            if s[i] == '\\' {
                '/'
            } else {
                s[i]
            },
    )
}

/// Convert a path to forward slashes.
pub fn normalize_path(path: &str) -> (r: String)
    ensures
        r@ == normalized(path@),
{
    let n = path.unicode_len();
    let mut out = String::new();
    let mut i: usize = 0;
    while i < n
        invariant
            i <= n,
            n == path@.len(),
            out@ == normalized(path@).take(i as int),
        decreases n - i,
    {
        let c = path.get_char(i);
        if c == '\\' {
            out.append("/");
            proof {
                reveal_strlit("/");
            }
        } else {
            out.append(path.substring_char(i, i + 1));
        }
        proof {
            assert(out@ =~= normalized(path@).take(i + 1));
        }
        i = i + 1;
    }
    proof {
        assert(normalized(path@).take(n as int) =~= normalized(path@));
    }
    out
}

/// A prefix and a name joined with `/`; the name alone when the prefix is
/// empty.
pub open spec fn join_spec(prefix: Seq<char>, name: Seq<char>) -> Seq<char> {
    if prefix.len() == 0 {
        name
    } else {
        prefix + "/"@ + name
    }
}

/// Join a path prefix and a name with `/`.
pub fn join_path(prefix: &str, name: &str) -> (r: String)
    ensures
        r@ == join_spec(prefix@, name@),
{
    if prefix.is_empty() {
        name.to_owned()
    } else {
        let mut s = prefix.to_owned();
        s.append("/");
        s.append(name);
        s
    }
}

/// The path-keyed contents of one embedded node: a file becomes one entry
/// under its normalized joined path; a directory contributes its
/// children's entries under its own path as prefix.
pub open spec fn collect_one(e: FsEntryV, prefix: Seq<char>) -> Seq<(Seq<char>, Seq<u8>)>
    decreases e,
{
    match e {
        FsEntryV::File { name, data } => seq![(join_spec(prefix, normalized(name)), data)],
        FsEntryV::Dir { name, entries } => collect_seq(
            entries,
            join_spec(prefix, normalized(name)),
        ),
    }
}

/// The path-keyed contents of a list of embedded nodes, in order.
pub open spec fn collect_seq(s: Seq<FsEntryV>, prefix: Seq<char>) -> Seq<(Seq<char>, Seq<u8>)>
    decreases s,
{
    if s.len() == 0 {
        Seq::empty()
    } else {
        collect_one(s[0], prefix) + collect_seq(s.drop_first(), prefix)
    }
}

fn collect_files(entries: &Vec<FsEntry>, prefix: &str, table: &mut Vec<(String, Vec<u8>)>)
    ensures
        final(table).deep_view() == old(table).deep_view() + collect_seq(
            fs_views(entries@),
            prefix@,
        ),
    decreases entries,
{
    let ghost all = fs_views(entries@);
    let ghost t0 = old(table).deep_view();
    proof {
        crate::embed::lemma_fs_views(entries@);
        assert(all.subrange(0, all.len() as int) =~= all);
        assert(t0 + Seq::<(Seq<char>, Seq<u8>)>::empty() =~= t0);
    }
    let mut i: usize = 0;
    while i < entries.len()
        invariant
            i <= entries.len(),
            all == fs_views(entries@),
            all.len() == entries@.len(),
            forall|x: int| 0 <= x < entries@.len() ==> all[x] == crate::embed::fs_view(entries@[x]),
            t0 == old(table).deep_view(),
            table.deep_view() + collect_seq(all.subrange(i as int, all.len() as int), prefix@)
                == t0 + collect_seq(all, prefix@),
        decreases entries.len() - i,
    {
        proof {
            assert(all.subrange(i as int, all.len() as int)[0] == all[i as int]);
            assert(all.subrange(i as int, all.len() as int).drop_first() =~= all.subrange(
                i + 1,
                all.len() as int,
            ));
        }
        let ghost tpre = table.deep_view();
        match &entries[i] {
            FsEntry::File { name, data } => {
                let full = join_path(prefix, normalize_path(name.as_str()).as_str());
                let ghost fullv = full@;
                let pair = (full, clone_bytes(data));
                proof {
                    assert(pair.deep_view() == (fullv, data@));
                }
                table.push(pair);
                proof {
                    assert(table.deep_view() =~= tpre.push((fullv, data@)));
                    assert(tpre.push((fullv, data@)) =~= tpre + collect_one(
                        all[i as int],
                        prefix@,
                    ));
                }
            },
            FsEntry::Dir { name, entries: children } => {
                let sub_prefix = join_path(prefix, normalize_path(name.as_str()).as_str());
                collect_files(children, sub_prefix.as_str(), table);
                proof {
                    assert(collect_one(all[i as int], prefix@) == collect_seq(
                        fs_views(children@),
                        sub_prefix@,
                    ));
                }
            },
        }
        proof {
            assert(collect_seq(all.subrange(i as int, all.len() as int), prefix@) == collect_one(
                all[i as int],
                prefix@,
            ) + collect_seq(all.subrange(i + 1, all.len() as int), prefix@));
            assert(table.deep_view() =~= tpre + collect_one(all[i as int], prefix@));
            assert(table.deep_view() + collect_seq(all.subrange(i + 1, all.len() as int), prefix@)
                =~= t0 + collect_seq(all, prefix@));
        }
        i = i + 1;
    }
    proof {
        assert(all.subrange(entries@.len() as int, all.len() as int) =~= Seq::<
            FsEntryV,
        >::empty());
        assert(table.deep_view() =~= table.deep_view() + collect_seq(
            all.subrange(entries@.len() as int, all.len() as int),
            prefix@,
        ));
    }
}

/// Identifies one embedded file: a template file by its path, or a file
/// of a package by the package and the path inside it.
pub struct FileKey {
    /// The package the file belongs to, or `None` for a template file.
    pub package: Option<PackageSpec>,
    /// The path of the file, rooted in its tree.
    pub vpath: String,
}

/// The table key a file key denotes: `namespace/name/version/path` for a
/// package file, the path alone for a template file.
pub open spec fn file_key_path(package: Option<PackageSpec>, vpath: Seq<char>) -> Seq<char> {
    match package {
        Some(p) => p.namespace@ + "/"@ + p.name@ + "/"@ + p.version@ + "/"@ + vpath,
        None => vpath,
    }
}

/// Resolver over the embedded template and package trees; contents stay
/// compressed until looked up.
pub struct EmbeddedResolver {
    pub template_files: Vec<(String, Vec<u8>)>,
    pub package_files: Vec<(String, Vec<u8>)>,
}

impl EmbeddedResolver {
    /// The path-keyed template contents.
    pub open spec fn templates_map(&self) -> Map<Seq<char>, Seq<u8>> {
        pairs_map(self.template_files.deep_view())
    }

    /// The path-keyed package contents.
    pub open spec fn packages_map(&self) -> Map<Seq<char>, Seq<u8>> {
        pairs_map(self.package_files.deep_view())
    }

    /// Create a resolver from the embedded template and package trees.
    pub fn new(templates: &Vec<FsEntry>, packages: &Vec<FsEntry>) -> (r: EmbeddedResolver)
        ensures
            r.template_files.deep_view() == collect_seq(fs_views(templates@), Seq::<char>::empty()),
            r.package_files.deep_view() == collect_seq(fs_views(packages@), Seq::<char>::empty()),
    {
        let mut template_files: Vec<(String, Vec<u8>)> = Vec::new();
        let mut package_files: Vec<(String, Vec<u8>)> = Vec::new();
        proof {
            reveal_strlit("");
            assert(template_files.deep_view() =~= Seq::<(Seq<char>, Seq<u8>)>::empty());
            assert(package_files.deep_view() =~= Seq::<(Seq<char>, Seq<u8>)>::empty());
        }
        collect_files(templates, "", &mut template_files);
        collect_files(packages, "", &mut package_files);
        proof {
            assert(Seq::<(Seq<char>, Seq<u8>)>::empty() + collect_seq(
                fs_views(templates@),
                ""@,
            ) =~= collect_seq(fs_views(templates@), ""@));
            assert(Seq::<(Seq<char>, Seq<u8>)>::empty() + collect_seq(
                fs_views(packages@),
                ""@,
            ) =~= collect_seq(fs_views(packages@), ""@));
            assert(""@ =~= Seq::<char>::empty());
        }
        EmbeddedResolver { template_files, package_files }
    }

    /// The table key for a file key.
    pub fn get_path(&self, key: &FileKey) -> (r: String)
        ensures
            r@ == file_key_path(key.package, key.vpath@),
    {
        match &key.package {
            Some(p) => {
                let mut s = p.namespace.clone();
                s.append("/");
                s.append(p.name.as_str());
                s.append("/");
                s.append(p.version.as_str());
                s.append("/");
                s.append(key.vpath.as_str());
                s
            },
            None => key.vpath.clone(),
        }
    }

    /// Look up the compressed bytes of an embedded file: in the package
    /// table for a package file, in the template table otherwise.
    pub fn lookup(&self, key: &FileKey) -> (r: Option<Vec<u8>>)
        ensures
            ({
                let m = if key.package is Some {
                    self.packages_map()
                } else {
                    self.templates_map()
                };
                let path = file_key_path(key.package, key.vpath@);
                match r {
                    Some(b) => m.contains_key(path) && b@ == m[path],
                    None => !m.contains_key(path),
                }
            }),
    {
        let path = self.get_path(key);
        let table = if matches!(&key.package, Some(_)) {
            &self.package_files
        } else {
            &self.template_files
        };
        match assoc_get(table, &path) {
            Some(b) => Some(clone_bytes(b)),
            None => None,
        }
    }

    /// Look up an embedded file and decompress it. A missing file is
    /// reported with its path; a stored blob that zstd produced
    /// decompresses to the original bytes.
    pub fn decompress_file(&self, key: &FileKey) -> (r: Result<Vec<u8>, Error>)
        ensures
            ({
                let m = if key.package is Some {
                    self.packages_map()
                } else {
                    self.templates_map()
                };
                let path = file_key_path(key.package, key.vpath@);
                &&& (r matches Err(e) && e matches Error::EntryNotFound(p) && p@ == path) <==> !m.contains_key(
                    path,
                )
                &&& m.contains_key(path) ==> (r is Ok || (r matches Err(e2) && e2 is Decompression))
                &&& forall|x: Seq<u8>, l: int|
                    m.contains_key(path) && m[path] == zstd_of(x, l) ==> r is Ok && r->Ok_0@ == x
            }),
    {
        match self.lookup(key) {
            None => Err(Error::EntryNotFound(self.get_path(key))),
            Some(compressed) => match zstd_decompress(compressed.as_slice()) {
                Ok(data) => Ok(data),
                Err(_) => Err(Error::Decompression),
            },
        }
    }
}

/// Name for what str::from_utf8 decodes from a byte sequence: the text,
/// when the bytes are valid UTF-8.
pub uninterp spec fn utf8_decode(b: Seq<u8>) -> Option<Seq<char>>;

/// Relies on str::from_utf8: decodes UTF-8 text, a function of the bytes
/// alone, failing exactly on invalid UTF-8.
#[verifier::external_body]
fn utf8_to_string(b: &[u8]) -> (r: Option<String>)
    ensures
        (r is Some) == (utf8_decode(b@) is Some),
        r matches Some(s) ==> s@ == utf8_decode(b@)->Some_0,
{
    match std::str::from_utf8(b) {
        Ok(s) => Some(s.to_string()),
        Err(_) => None,
    }
}

/// Whether the bytes begin with the UTF-8 byte order mark.
pub open spec fn has_bom(b: Seq<u8>) -> bool {
    b.len() >= 3 && b[0] == 0xef && b[1] == 0xbb && b[2] == 0xbf
}

/// The text an embedded byte block denotes: its UTF-8 decoding, after a
/// leading byte order mark is dropped.
pub open spec fn decoded_text(b: Seq<u8>) -> Option<Seq<char>> {
    if has_bom(b) {
        utf8_decode(b.skip(3))
    } else {
        utf8_decode(b)
    }
}

/// Decode an embedded text file: strip a UTF-8 byte order mark if there
/// is one, then decode; invalid UTF-8 is an error.
pub fn decode_text(bytes: &Vec<u8>) -> (r: Result<String, Error>)
    ensures
        (r is Ok) == (decoded_text(bytes@) is Some),
        r matches Ok(s) ==> s@ == decoded_text(bytes@)->Some_0,
        r matches Err(e) ==> e is InvalidUtf8,
{
    let stripped: &[u8] = if bytes.len() >= 3 && bytes[0] == 0xef && bytes[1] == 0xbb && bytes[2]
        == 0xbf {
        let s = vstd::slice::slice_subrange(bytes.as_slice(), 3, bytes.len());
        proof {
            assert(s@ =~= bytes@.skip(3));
        }
        s
    } else {
        bytes.as_slice()
    };
    match utf8_to_string(stripped) {
        Some(s) => Ok(s),
        None => Err(Error::InvalidUtf8),
    }
}

} // verus!
