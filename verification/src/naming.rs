//! File-name handling for one run: which archive format a name selects,
//! and the name of the output file it produces.

use vstd::prelude::*;
use vstd::string::*;

verus! {

/// The suffix that marks a gzip-compressed tar archive.
pub open spec fn tar_gz_suffix() -> Seq<char> {
    ".tar.gz"@
}

/// The suffix that marks a zip archive.
pub open spec fn zip_suffix() -> Seq<char> {
    ".zip"@
}

/// The suffix appended to the stem to name the output file.
pub open spec fn output_suffix() -> Seq<char> {
    "_logs.txt"@
}

pub open spec fn has_suffix(name: Seq<char>, suffix: Seq<char>) -> bool {
    name.len() >= suffix.len() && name.skip(name.len() - suffix.len()) == suffix
}

/// The output base name: a recognized archive suffix is stripped, the
/// longer one checked first; an unrecognized name is kept whole.
pub open spec fn stem_of(name: Seq<char>) -> Seq<char> {
    if has_suffix(name, tar_gz_suffix()) {
        name.take(name.len() - tar_gz_suffix().len())
    } else if has_suffix(name, zip_suffix()) {
        name.take(name.len() - zip_suffix().len())
    } else {
        name
    }
}

/// The archive format a file name selects, or nothing for a name the run
/// skips.
#[derive(Clone, Copy, Debug, PartialEq, Eq, Structural)]
pub enum ArchiveKind {
    TarGz,
    Zip,
}

pub open spec fn kind_of(name: Seq<char>) -> Option<ArchiveKind> {
    if has_suffix(name, tar_gz_suffix()) {
        Some(ArchiveKind::TarGz)
    } else if has_suffix(name, zip_suffix()) {
        Some(ArchiveKind::Zip)
    } else {
        None
    }
}

/// The output file's name for a given input file name.
pub open spec fn output_name_of(name: Seq<char>) -> Seq<char> {
    stem_of(name) + output_suffix()
}

fn ends_with_str(name: &str, suffix: &str) -> (r: bool)
    ensures
        r == has_suffix(name@, suffix@),
{
    let n = name.unicode_len();
    let m = suffix.unicode_len();
    if n < m {
        return false;
    }
    let mut k: usize = 0;
    while k < m
        invariant
            m <= n == name@.len(),
            m == suffix@.len(),
            k <= m,
            forall|j: int| 0 <= j < k ==> name@[n - m + j] == suffix@[j],
        decreases m - k,
    {
        if name.get_char(n - m + k) != suffix.get_char(k) {
            proof {
                assert(name@.skip((n - m) as int)[k as int] == name@[n - m + k]);
            }
            return false;
        }
        k += 1;
    }
    proof {
        assert(name@.skip((n - m) as int) =~= suffix@);
    }
    true
}

/// Strips a recognized archive suffix from a file name, the longer suffix
/// checked first, and keeps an unrecognized name whole.
pub fn dataset_stem(name: &str) -> (r: String)
    ensures
        r@ == stem_of(name@),
{
    let n = name.unicode_len();
    if ends_with_str(name, ".tar.gz") {
        proof {
            reveal_strlit(".tar.gz");
        }
        name.substring_char(0, n - 7).to_owned()
    } else if ends_with_str(name, ".zip") {
        proof {
            reveal_strlit(".zip");
        }
        name.substring_char(0, n - 4).to_owned()
    } else {
        name.to_owned()
    }
}

/// Selects the extractor a file name calls for, by its archive suffix;
/// `None` marks a file the run silently skips.
pub fn classify(name: &str) -> (r: Option<ArchiveKind>)
    ensures
        r == kind_of(name@),
{
    if ends_with_str(name, ".tar.gz") {
        Some(ArchiveKind::TarGz)
    } else if ends_with_str(name, ".zip") {
        Some(ArchiveKind::Zip)
    } else {
        None
    }
}

/// Derives the output file's name for a given input file name.
pub fn output_name(name: &str) -> (r: String)
    ensures
        r@ == output_name_of(name@),
{
    let mut s = dataset_stem(name);
    s.append("_logs.txt");
    s
}

} // verus!
