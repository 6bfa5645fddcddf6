//! Configuration helpers: the entry filters the embedder uses, path
//! resolution against a manifest directory, and the compression-level
//! clamp. Reading environment variables and manifest files stays with the
//! caller; these functions hold the rules applied to what was read.

use vstd::prelude::*;
use crate::text::{last_index_of, lemma_last_index_of, rfind_char, str_eq};

verus! {

/// A hidden name: one that begins with a dot.
pub open spec fn is_hidden_name(name: Seq<char>) -> bool {
    name.len() > 0 && name[0] == '.'
}

/// Check if a file or directory name is hidden (begins with a dot).
pub fn is_hidden(name: &str) -> (r: bool)
    ensures
        r == is_hidden_name(name@),
{
    if s_len_zero(name) {
        false
    } else {
        name.get_char(0) == '.'
    }
}

fn s_len_zero(s: &str) -> (r: bool)
    ensures
        r == (s@.len() == 0),
{
    s.unicode_len() == 0
}

/// Case-insensitive equality against an all-lowercase ASCII word: each
/// character matches exactly or is the uppercase ASCII form of it.
pub open spec fn ci_eq(a: Seq<char>, b: Seq<char>) -> bool {
    a.len() == b.len() && forall|i: int|
        0 <= i < a.len() ==> (#[trigger] a[i] == b[i] || a[i] as u32 + 32 == b[i] as u32)
}

fn ci_eq_exec(a: &str, b: &str) -> (r: bool)
    ensures
        r == ci_eq(a@, b@),
{
    let an = a.unicode_len();
    let bn = b.unicode_len();
    if an != bn {
        return false;
    }
    let mut i: usize = 0;
    while i < an
        invariant
            i <= an,
            an == a@.len(),
            an == b@.len(),
            forall|j: int|
                0 <= j < i ==> (#[trigger] a@[j] == b@[j] || a@[j] as u32 + 32 == b@[j] as u32),
        decreases an - i,
    {
        let ca = a.get_char(i);
        let cb = b.get_char(i);
        if !(ca == cb || ca as u32 + 32 == cb as u32) {
            return false;
        }
        i = i + 1;
    }
    true
}

/// The extension of a file name: what follows the last dot, where that dot
/// is not the leading character; empty when there is no such dot.
pub open spec fn extension_of(name: Seq<char>) -> Seq<char> {
    let k = last_index_of(name, '.');
    if k >= 1 {
        name.subrange(k + 1, name.len() as int)
    } else {
        Seq::empty()
    }
}

/// A recognized font extension: `ttf`, `otf` or `ttc`, in any case.
pub open spec fn is_font_name(name: Seq<char>) -> bool {
    ci_eq(extension_of(name), "ttf"@) || ci_eq(extension_of(name), "otf"@) || ci_eq(
        extension_of(name),
        "ttc"@,
    )
}

/// Check if a file name names a supported font file (`.ttf`, `.otf` or
/// `.ttc`, case-insensitively).
pub fn is_font_file(name: &str) -> (r: bool)
    ensures
        r == is_font_name(name@),
{
    proof {
        reveal_strlit("ttf");
        reveal_strlit("otf");
        reveal_strlit("ttc");
    }
    let n = name.unicode_len();
    let k = match rfind_char(name, '.') {
        Some(k) => k,
        None => {
            proof {
                assert(extension_of(name@) =~= Seq::<char>::empty());
            }
            return false;
        },
    };
    proof {
        lemma_last_index_of(name@, '.');
    }
    if k < 1 {
        proof {
            assert(extension_of(name@) =~= Seq::<char>::empty());
        }
        return false;
    }
    let ext = name.substring_char(k + 1, n);
    ci_eq_exec(ext, "ttf") || ci_eq_exec(ext, "otf") || ci_eq_exec(ext, "ttc")
}

/// Resolve a path against a base directory: an absolute path (one that
/// begins with the separator) passes through; a relative one is joined to
/// the base.
pub fn resolve_path(base_dir: &str, path: &str) -> (r: String)
    ensures
        path@.len() > 0 && path@[0] == '/' ==> r@ == path@,
        !(path@.len() > 0 && path@[0] == '/') ==> r@ == base_dir@ + "/"@ + path@,
{
    if !s_len_zero(path) && path.get_char(0) == '/' {
        path.to_owned()
    } else {
        let mut s = base_dir.to_owned();
        s.append("/");
        s.append(path);
        s
    }
}

/// The smallest supported compression level.
pub const LEVEL_MIN: i32 = 1;

/// The largest supported compression level.
pub const LEVEL_MAX: i32 = 22;

/// The default compression level.
pub const LEVEL_DEFAULT: i32 = 19;

/// Clamp a configured compression level to the supported range.
pub fn clamp_compression_level(level: i64) -> (r: i32)
    ensures
        level < LEVEL_MIN as i64 ==> r == LEVEL_MIN,
        level > LEVEL_MAX as i64 ==> r == LEVEL_MAX,
        LEVEL_MIN as i64 <= level <= LEVEL_MAX as i64 ==> r as i64 == level,
{
    if level < LEVEL_MIN as i64 {
        LEVEL_MIN
    } else if level > LEVEL_MAX as i64 {
        LEVEL_MAX
    } else {
        level as i32
    }
}

} // verus!
