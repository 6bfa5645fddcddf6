//! Package specifiers (`@namespace/name:version`) and their extraction from
//! template source text and manifest dependency tables.

use vstd::prelude::*;
use crate::text::{first_index_of, lemma_first_index_of, find_char, str_eq};

verus! {

/// Mathematical value of a [`PackageSpec`]: the three components as
/// character sequences.
pub ghost struct PackageSpecView {
    pub namespace: Seq<char>,
    pub name: Seq<char>,
    pub version: Seq<char>,
}

/// A package specifier: `@namespace/name:version`.
#[derive(Debug, Hash, Eq)]
pub struct PackageSpec {
    pub namespace: String,
    pub name: String,
    pub version: String,
}

impl Clone for PackageSpec {
    fn clone(&self) -> (r: Self)
        ensures
            r == *self,
    {
        PackageSpec {
            namespace: self.namespace.clone(),
            name: self.name.clone(),
            version: self.version.clone(),
        }
    }
}

impl View for PackageSpec {
    type V = PackageSpecView;

    open spec fn view(&self) -> PackageSpecView {
        PackageSpecView {
            namespace: self.namespace@,
            name: self.name@,
            version: self.version@,
        }
    }
}

impl DeepView for PackageSpec {
    type V = PackageSpecView;

    open spec fn deep_view(&self) -> PackageSpecView {
        self.view()
    }
}

impl PartialEq for PackageSpec {
    fn eq(&self, other: &PackageSpec) -> (r: bool) {
        self.namespace == other.namespace && self.name == other.name && self.version
            == other.version
    }
}

impl vstd::std_specs::cmp::PartialEqSpecImpl for PackageSpec {
    open spec fn obeys_eq_spec() -> bool {
        true
    }

    open spec fn eq_spec(&self, other: &PackageSpec) -> bool {
        self@ == other@
    }
}

/// A resolved package: spec paired with the directory it was found at.
#[derive(Debug)]
pub struct ResolvedPackage {
    pub spec: PackageSpec,
    pub path: String,
}

impl Clone for ResolvedPackage {
    fn clone(&self) -> (r: Self)
        ensures
            r == *self,
    {
        ResolvedPackage { spec: self.spec.clone(), path: self.path.clone() }
    }
}

/// Name for what `char::is_alphanumeric` returns on a character.
pub uninterp spec fn char_is_alphanumeric(c: char) -> bool;

/// Relies on char::is_alphanumeric: membership of the character in the
/// Unicode Alphabetic, Nd, Nl or No categories, a fixed property of the
/// character. ASCII letters and digits are alphanumeric; all other ASCII
/// characters are not.
#[verifier::external_body]
fn is_alphanumeric(c: char) -> (r: bool)
    ensures
        r == char_is_alphanumeric(c),
        ('a' as u32 <= c as u32 && c as u32 <= 'z' as u32) || ('A' as u32 <= c as u32 && c as u32
            <= 'Z' as u32) || ('0' as u32 <= c as u32 && c as u32 <= '9' as u32) ==> r,
        (c as u32) < 128 && !(('a' as u32 <= c as u32 && c as u32 <= 'z' as u32) || ('A' as u32
            <= c as u32 && c as u32 <= 'Z' as u32) || ('0' as u32 <= c as u32 && c as u32
            <= '9' as u32)) ==> !r,
{
    c.is_alphanumeric()
}

/// Name for what `char::is_numeric` returns on a character.
pub uninterp spec fn char_is_numeric(c: char) -> bool;

/// Relies on char::is_numeric: membership of the character in the Unicode
/// Nd, Nl or No categories, a fixed property of the character. ASCII digits
/// are numeric; all other ASCII characters are not.
#[verifier::external_body]
fn is_numeric(c: char) -> (r: bool)
    ensures
        r == char_is_numeric(c),
        '0' as u32 <= c as u32 && c as u32 <= '9' as u32 ==> r,
        (c as u32) < 128 && !('0' as u32 <= c as u32 && c as u32 <= '9' as u32) ==> !r,
{
    c.is_numeric()
}

/// A character allowed in a package identifier.
pub open spec fn is_ident_char(c: char) -> bool {
    char_is_alphanumeric(c) || c == '-' || c == '_'
}

/// A character allowed in a version specifier.
pub open spec fn is_version_char(c: char) -> bool {
    char_is_numeric(c) || c == '.'
}

/// A valid package identifier: non-empty, alphanumeric/hyphen/underscore.
pub open spec fn valid_identifier_seq(s: Seq<char>) -> bool {
    s.len() > 0 && forall|i: int| 0 <= i < s.len() ==> is_ident_char(#[trigger] s[i])
}

/// A valid version specifier: non-empty, numeric/dot.
pub open spec fn valid_version_seq(s: Seq<char>) -> bool {
    s.len() > 0 && forall|i: int| 0 <= i < s.len() ==> is_version_char(#[trigger] s[i])
}

/// Check if a string is a valid package identifier.
pub fn is_valid_identifier(s: &str) -> (r: bool)
    ensures
        r == valid_identifier_seq(s@),
{
    let n = s.unicode_len();
    if n == 0 {
        return false;
    }
    let mut i: usize = 0;
    while i < n
        invariant
            i <= n,
            n == s@.len(),
            forall|j: int| 0 <= j < i ==> is_ident_char(#[trigger] s@[j]),
        decreases n - i,
    {
        let c = s.get_char(i);
        if !(is_alphanumeric(c) || c == '-' || c == '_') {
            return false;
        }
        i = i + 1;
    }
    true
}

/// Check if a string is a valid version specifier.
pub fn is_valid_version(s: &str) -> (r: bool)
    ensures
        r == valid_version_seq(s@),
{
    let n = s.unicode_len();
    if n == 0 {
        return false;
    }
    let mut i: usize = 0;
    while i < n
        invariant
            i <= n,
            n == s@.len(),
            forall|j: int| 0 <= j < i ==> is_version_char(#[trigger] s@[j]),
        decreases n - i,
    {
        let c = s.get_char(i);
        if !(is_numeric(c) || c == '.') {
            return false;
        }
        i = i + 1;
    }
    true
}

/// The package specifier denoted by `s`, if `s` has the shape
/// `@namespace/name:version` with a valid identifier for the namespace and
/// the name and a valid version, splitting at the first `/` and the first
/// following `:`.
pub open spec fn parse_spec(s: Seq<char>) -> Option<PackageSpecView> {
    if s.len() == 0 || s[0] != '@' {
        None
    } else {
        let rest = s.subrange(1, s.len() as int);
        let slash = first_index_of(rest, '/');
        if slash < 0 {
            None
        } else {
            let ns = rest.subrange(0, slash);
            let nv = rest.subrange(slash + 1, rest.len() as int);
            let colon = first_index_of(nv, ':');
            if colon < 0 {
                None
            } else {
                let name = nv.subrange(0, colon);
                let ver = nv.subrange(colon + 1, nv.len() as int);
                if valid_identifier_seq(ns) && valid_identifier_seq(name) && valid_version_seq(
                    ver,
                ) {
                    Some(PackageSpecView { namespace: ns, name: name, version: ver })
                } else {
                    None
                }
            }
        }
    }
}

/// The on-disk directory for a package under a base directory:
/// `base/namespace/name/version`.
pub open spec fn package_dir_spec(base: Seq<char>, p: PackageSpecView) -> Seq<char> {
    base + "/"@ + p.namespace + "/"@ + p.name + "/"@ + p.version
}

/// The registry URL for a package archive.
pub open spec fn download_url_spec(p: PackageSpecView) -> Seq<char> {
    "https://packages.typst.org/"@ + p.namespace + "/"@ + p.name + "-"@ + p.version + ".tar.gz"@
}

/// The label of a package: `@namespace/name:version`.
pub open spec fn pkg_label_spec(p: PackageSpecView) -> Seq<char> {
    "@"@ + p.namespace + "/"@ + p.name + ":"@ + p.version
}

impl PackageSpec {
    /// The on-disk directory for this package under a base directory:
    /// `base/namespace/name/version`.
    pub fn package_dir(&self, base: &str) -> (r: String)
        ensures
            r@ == package_dir_spec(base@, self@),
    {
        let mut s = base.to_owned();
        s.append("/");
        s.append(self.namespace.as_str());
        s.append("/");
        s.append(self.name.as_str());
        s.append("/");
        s.append(self.version.as_str());
        s
    }

    /// The registry download URL for this package archive.
    pub fn download_url(&self) -> (r: String)
        ensures
            r@ == download_url_spec(self@),
    {
        let mut s = "https://packages.typst.org/".to_owned();
        s.append(self.namespace.as_str());
        s.append("/");
        s.append(self.name.as_str());
        s.append("-");
        s.append(self.version.as_str());
        s.append(".tar.gz");
        s
    }

    /// Whether this package can be downloaded from the registry: only the
    /// `preview` namespace is hosted there.
    pub fn is_downloadable(&self) -> (r: bool)
        ensures
            r == (self.namespace@ == "preview"@),
    {
        str_eq(self.namespace.as_str(), "preview")
    }

    /// The label of this package: `@namespace/name:version`.
    pub fn label(&self) -> (r: String)
        ensures
            r@ == pkg_label_spec(self@),
    {
        let mut s = "@".to_owned();
        s.append(self.namespace.as_str());
        s.append("/");
        s.append(self.name.as_str());
        s.append(":");
        s.append(self.version.as_str());
        s
    }
}

/// Parse a package specifier of the form `@namespace/name:version`.
pub fn parse_package_specifier(path: &str) -> (r: Option<PackageSpec>)
    ensures
        match r {
            Some(p) => parse_spec(path@) == Some(p@),
            None => parse_spec(path@) is None,
        },
{
    let n = path.unicode_len();
    if n == 0 || path.get_char(0) != '@' {
        return None;
    }
    let rest = path.substring_char(1, n);
    let rest_len = n - 1;
    proof {
        assert(rest@ == path@.subrange(1, path@.len() as int));
    }
    let slash = match find_char(rest, '/') {
        Some(i) => i,
        None => {
            return None;
        },
    };
    proof {
        lemma_first_index_of(rest@, '/');
    }
    let ns = rest.substring_char(0, slash);
    let nv = rest.substring_char(slash + 1, rest_len);
    let colon = match find_char(nv, ':') {
        Some(i) => i,
        None => {
            return None;
        },
    };
    proof {
        lemma_first_index_of(nv@, ':');
    }
    let nv_len = rest_len - slash - 1;
    let name = nv.substring_char(0, colon);
    let ver = nv.substring_char(colon + 1, nv_len);
    if is_valid_identifier(ns) && is_valid_identifier(name) && is_valid_version(ver) {
        Some(
            PackageSpec {
                namespace: ns.to_owned(),
                name: name.to_owned(),
                version: ver.to_owned(),
            },
        )
    } else {
        None
    }
}

/// Name for the import strings that typst_syntax finds in a source text:
/// the quoted sources of the module imports of its markup root, in order.
pub uninterp spec fn imports_of(s: Seq<char>) -> Seq<Seq<char>>;

/// Relies on typst_syntax: parsing a detached source and walking the module
/// imports of its markup root. The import strings found are a function of
/// the text alone.
#[verifier::external_body]
fn import_strings(content: &str) -> (r: Vec<String>)
    ensures
        r.deep_view() == imports_of(content@),
{
    let source = typst_syntax::Source::detached(content);
    let mut out = Vec::new();
    if let Some(root) = source.root().cast::<typst_syntax::ast::Markup>() {
        for expr in root.exprs() {
            if let typst_syntax::ast::Expr::ModuleImport(import) = expr {
                if let typst_syntax::ast::Expr::Str(s) = import.source() {
                    out.push(s.get().to_string());
                }
            }
        }
    }
    out
}

/// The package specifiers among a sequence of import strings: each string
/// that parses as a specifier, in order; malformed strings are ignored.
pub open spec fn specs_of_imports(imports: Seq<Seq<char>>) -> Seq<PackageSpecView>
    decreases imports.len(),
{
    if imports.len() == 0 {
        Seq::empty()
    } else {
        let init = specs_of_imports(imports.drop_last());
        match parse_spec(imports.last()) {
            Some(p) => init.push(p),
            None => init,
        }
    }
}

fn specs_in_source(content: &str) -> (r: Vec<PackageSpec>)
    ensures
        r.deep_view() == specs_of_imports(imports_of(content@)),
{
    let imports = import_strings(content);
    let ghost all = imports.deep_view();
    let mut out: Vec<PackageSpec> = Vec::new();
    let mut i: usize = 0;
    while i < imports.len()
        invariant
            i <= imports.len(),
            all == imports.deep_view(),
            out.deep_view() == specs_of_imports(all.take(i as int)),
        decreases imports.len() - i,
    {
        proof {
            assert(all.take(i + 1).drop_last() =~= all.take(i as int));
            assert(all.take(i + 1).last() == all[i as int]);
        }
        match parse_package_specifier(imports[i].as_str()) {
            Some(p) => {
                out.push(p);
            },
            None => {},
        }
        i = i + 1;
    }
    proof {
        assert(all.take(imports.len() as int) =~= all);
    }
    out
}

/// Extract package imports from template source text. Malformed import
/// strings are ignored; text that does not parse as markup yields no
/// imports. Never fails.
pub fn parse_packages_from_source(content: &str) -> (r: Result<Vec<PackageSpec>, String>)
    ensures
        r matches Ok(v) && v.deep_view() == specs_of_imports(imports_of(content@)),
{
    Ok(specs_in_source(content))
}

/// Name for the string-valued entries of the `package.dependencies` table
/// of a manifest text: `(name, value)` pairs in table order, empty when the
/// text does not parse or has no such table.
pub uninterp spec fn manifest_deps_of(s: Seq<char>) -> Seq<(Seq<char>, Seq<char>)>;

/// Relies on toml: parsing a manifest and reading the string entries of its
/// `package.dependencies` table; a function of the text alone.
#[verifier::external_body]
fn manifest_dependency_entries(content: &str) -> (r: Vec<(String, String)>)
    ensures
        r.deep_view() == manifest_deps_of(content@),
{
    let mut out = Vec::new();
    if let Ok(table) = content.parse::<toml::Table>() {
        if let Some(deps) = table
            .get("package")
            .and_then(|p| p.get("dependencies"))
            .and_then(|d| d.as_table())
        {
            for (k, v) in deps.iter() {
                if let Some(s) = v.as_str() {
                    out.push((k.clone(), s.to_owned()));
                }
            }
        }
    }
    out
}

/// The dependency declared by one manifest entry: the value is split at its
/// first `:` into namespace and version, keyed by the entry name; entries
/// without a `:` are ignored.
pub open spec fn dep_of_entry(name: Seq<char>, value: Seq<char>) -> Option<PackageSpecView> {
    let colon = first_index_of(value, ':');
    if colon < 0 {
        None
    } else {
        Some(
            PackageSpecView {
                namespace: value.subrange(0, colon),
                name: name,
                version: value.subrange(colon + 1, value.len() as int),
            },
        )
    }
}

/// The dependencies declared by a sequence of manifest entries, in order.
pub open spec fn deps_of_entries(entries: Seq<(Seq<char>, Seq<char>)>) -> Seq<PackageSpecView>
    decreases entries.len(),
{
    if entries.len() == 0 {
        Seq::empty()
    } else {
        let init = deps_of_entries(entries.drop_last());
        match dep_of_entry(entries.last().0, entries.last().1) {
            Some(p) => init.push(p),
            None => init,
        }
    }
}

/// The explicit dependencies declared in a manifest text.
pub fn deps_from_manifest(content: &str) -> (r: Vec<PackageSpec>)
    ensures
        r.deep_view() == deps_of_entries(manifest_deps_of(content@)),
{
    let entries = manifest_dependency_entries(content);
    let ghost all = entries.deep_view();
    let mut out: Vec<PackageSpec> = Vec::new();
    let mut i: usize = 0;
    while i < entries.len()
        invariant
            i <= entries.len(),
            all == entries.deep_view(),
            out.deep_view() == deps_of_entries(all.take(i as int)),
        decreases entries.len() - i,
    {
        proof {
            assert(all.take(i + 1).drop_last() =~= all.take(i as int));
            assert(all.take(i + 1).last() == all[i as int]);
        }
        let value = &entries[i].1;
        match find_char(value.as_str(), ':') {
            Some(k) => {
                proof {
                    lemma_first_index_of(value@, ':');
                }
                let vlen = value.as_str().unicode_len();
                let ns = value.as_str().substring_char(0, k);
                let ver = value.as_str().substring_char(k + 1, vlen);
                out.push(
                    PackageSpec {
                        namespace: ns.to_owned(),
                        name: entries[i].0.clone(),
                        version: ver.to_owned(),
                    },
                );
            },
            None => {},
        }
        i = i + 1;
    }
    proof {
        assert(all.take(entries.len() as int) =~= all);
    }
    out
}

pub(crate) fn contains_spec(v: &Vec<PackageSpec>, p: &PackageSpec) -> (r: bool)
    ensures
        r == v.deep_view().contains(p@),
{
    let mut i: usize = 0;
    while i < v.len()
        invariant
            i <= v.len(),
            forall|j: int| 0 <= j < i ==> v.deep_view()[j] != p@,
        decreases v.len() - i,
    {
        if &v[i] == p {
            proof {
                assert(v.deep_view()[i as int] == p@);
            }
            return true;
        }
        i = i + 1;
    }
    false
}

/// A sequence with its later duplicates removed: each element keeps its
/// first occurrence only.
pub open spec fn dedup_first(s: Seq<PackageSpecView>) -> Seq<PackageSpecView>
    decreases s.len(),
{
    if s.len() == 0 {
        Seq::empty()
    } else {
        let init = dedup_first(s.drop_last());
        if init.contains(s.last()) {
            init
        } else {
            init.push(s.last())
        }
    }
}

/// All package specifiers imported by a sequence of source texts, in order.
pub open spec fn all_source_specs(contents: Seq<Seq<char>>) -> Seq<PackageSpecView>
    decreases contents.len(),
{
    if contents.len() == 0 {
        Seq::empty()
    } else {
        all_source_specs(contents.drop_last()) + specs_of_imports(
            imports_of(contents.last()),
        )
    }
}

/// The deduplicated set of package specifiers referenced by import
/// statements in the given source texts, in first-occurrence order.
pub fn collect_package_specs(contents: &Vec<String>) -> (r: Vec<PackageSpec>)
    ensures
        r.deep_view() == dedup_first(all_source_specs(contents.deep_view())),
{
    let ghost all = contents.deep_view();
    let mut found: Vec<PackageSpec> = Vec::new();
    let ghost mut seen: Seq<PackageSpecView> = Seq::empty();
    let mut i: usize = 0;
    while i < contents.len()
        invariant
            i <= contents.len(),
            all == contents.deep_view(),
            seen == all_source_specs(all.take(i as int)),
            found.deep_view() == dedup_first(seen),
        decreases contents.len() - i,
    {
        proof {
            assert(all.take(i + 1).drop_last() =~= all.take(i as int));
            assert(all.take(i + 1).last() == all[i as int]);
        }
        let specs = specs_in_source(contents[i].as_str());
        let ghost specs_v = specs.deep_view();
        let mut j: usize = 0;
        while j < specs.len()
            invariant
                j <= specs.len(),
                specs_v == specs.deep_view(),
                found.deep_view() == dedup_first(seen + specs_v.take(j as int)),
            decreases specs.len() - j,
        {
            proof {
                let pre = seen + specs_v.take(j as int);
                assert((seen + specs_v.take(j + 1)).drop_last() =~= pre);
                assert((seen + specs_v.take(j + 1)).last() == specs_v[j as int]);
            }
            let ghost pre_found = found.deep_view();
            if !contains_spec(&found, &specs[j]) {
                found.push(specs[j].clone());
                proof {
                    assert(found.deep_view() =~= pre_found.push(specs_v[j as int]));
                }
            }
            j = j + 1;
        }
        proof {
            assert(seen + specs_v.take(specs_v.len() as int) =~= seen + specs_v);
            seen = seen + specs_v;
        }
        i = i + 1;
    }
    proof {
        assert(all.take(contents.len() as int) =~= all);
    }
    found
}

/// The dependencies of a resolved package directory: the explicit ones of
/// its manifest, if it has one, followed by the implicit imports of its
/// source texts.
pub fn resolve_dependencies(manifest: Option<&String>, sources: &Vec<String>) -> (r: Vec<
    PackageSpec,
>)
    ensures
        r.deep_view() == (match manifest {
            Some(m) => deps_of_entries(manifest_deps_of(m@)),
            None => Seq::<PackageSpecView>::empty(),
        }) + dedup_first(all_source_specs(sources.deep_view())),
{
    let mut out = match manifest {
        Some(m) => deps_from_manifest(m.as_str()),
        None => Vec::new(),
    };
    let mut implicit = collect_package_specs(sources);
    out.append(&mut implicit);
    out
}

} // verus!
