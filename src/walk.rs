//! Deciding what becomes of each entry met while walking a directory tree.

use vstd::prelude::*;
use crate::opts::{Metrics, Opts};
use crate::paths::{ext_of, file_ext, file_stem, stem_of};

verus! {

/// What becomes of one directory entry.
#[derive(Clone, Copy, Debug, PartialEq, Eq, Structural)]
pub enum Disposition {
    /// A directory to walk into.
    Descend,
    /// Not an image: passed over without a word.
    Ignore,
    /// An image too small to be worth processing.
    Skip,
    /// A file that an earlier run generated.
    Generated,
    /// An image to process.
    Process,
}

/// What `str::to_lowercase` returns for `s`.
pub uninterp spec fn lower_of(s: Seq<char>) -> Seq<char>;

/// Relies on `str::to_lowercase`: its result depends on the characters alone.
#[verifier::external_body]
fn lowercase(s: &str) -> (r: String)
    ensures
        r@ == lower_of(s@),
{
    s.to_lowercase()
}

/// What testing `s` against `pattern`, a regular expression of the `regex`
/// crate, gives: `None` where the pattern does not compile, else whether it
/// matches somewhere in `s`.
pub uninterp spec fn regex_outcome(pattern: Seq<char>, s: Seq<char>) -> Option<bool>;

/// Relies on `regex::Regex::new`, which fails only for a pattern that is
/// invalid or exceeds the default size limit, so on the pattern alone, and on
/// `regex::Regex::is_match`, which reports whether the compiled pattern
/// matches somewhere in the text.
#[verifier::external_body]
fn matches_pattern(pattern: &str, s: &str) -> (r: Option<bool>)
    ensures
        r == regex_outcome(pattern@, s@),
{
    match regex::Regex::new(pattern) {
        Ok(re) => Some(re.is_match(s)),
        Err(_) => None,
    }
}

/// The file stems that earlier runs give their outputs: `legacy`, or three
/// or four digits followed by `w`.
pub const GENERATED_PATTERN: &'static str = "^\\d{3}w$|^\\d{4}w$|^legacy$";

/// Whether a file stem is taken for one an earlier run generated: where
/// `GENERATED_PATTERN` matches it, or where the pattern cannot be compiled
/// and so nothing can be told apart.
pub open spec fn generated_stem(stem: Seq<char>) -> bool {
    match regex_outcome(GENERATED_PATTERN@, stem) {
        Some(b) => b,
        None => true,
    }
}

/// The extensions, in lower case, of the image formats that are handled.
pub open spec fn image_ext(e: Seq<char>) -> bool {
    e == "bmp"@ || e == "gif"@ || e == "hdr"@ || e == "ico"@ || e == "jpg"@ || e == "jpeg"@
        || e == "png"@ || e == "pnm"@ || e == "pgm"@ || e == "ppm"@ || e == "tga"@ || e == "dds"@
        || e == "tif"@ || e == "tiff"@ || e == "webp"@ || e == "ff"@ || e == "avif"@
}

fn same_text(a: &str, b: &str) -> (r: bool)
    ensures
        r == (a@ == b@),
{
    let n = a.unicode_len();
    if n != b.unicode_len() {
        return false;
    }
    let mut i: usize = 0;
    while i < n
        invariant
            i <= n,
            n == a@.len(),
            n == b@.len(),
            a@.subrange(0, i as int) == b@.subrange(0, i as int),
        decreases n - i,
    {
        if a.get_char(i) != b.get_char(i) {
            assert(a@[i as int] != b@[i as int]);
            return false;
        }
        assert(a@.subrange(0, i as int + 1) =~= a@.subrange(0, i as int).push(a@[i as int]));
        assert(b@.subrange(0, i as int + 1) =~= b@.subrange(0, i as int).push(b@[i as int]));
        i = i + 1;
    }
    assert(a@ =~= a@.subrange(0, n as int));
    assert(b@ =~= b@.subrange(0, n as int));
    true
}

/// Whether `e`, taken as it is, names a handled image format.
pub fn is_image_ext(e: &str) -> (r: bool)
    ensures
        r == image_ext(e@),
{
    same_text(e, "bmp") || same_text(e, "gif") || same_text(e, "hdr") || same_text(e, "ico")
        || same_text(e, "jpg") || same_text(e, "jpeg") || same_text(e, "png") || same_text(
        e,
        "pnm",
    ) || same_text(e, "pgm") || same_text(e, "ppm") || same_text(e, "tga") || same_text(e, "dds")
        || same_text(e, "tif") || same_text(e, "tiff") || same_text(e, "webp") || same_text(
        e,
        "ff",
    ) || same_text(e, "avif")
}

/// Whether the extension `ext` names a handled image format, in any case.
pub fn check_extension(ext: &str) -> (r: bool)
    ensures
        r == image_ext(lower_of(ext@)),
{
    let lower = lowercase(ext);
    is_image_ext(lower.as_str())
}

/// What becomes of a file at `path` of `size` bytes, given whether its
/// extension names an image format and whether its stem looks generated.
pub open spec fn disposition(path: Seq<char>, is_image: bool, size: u64, min_size: u64, generated: bool) -> Disposition {
    if ext_of(path) is None || !is_image {
        Disposition::Ignore
    } else if size <= min_size {
        Disposition::Skip
    } else if generated {
        Disposition::Generated
    } else {
        Disposition::Process
    }
}

/// What becomes of a file: the extension is tested against the handled
/// formats, in any case, before the size, and the size before the stem.
pub open spec fn file_disposition(path: Seq<char>, size: u64, min_size: u64, generated: bool) -> Disposition {
    let is_image = ext_of(path) is Some && image_ext(lower_of(ext_of(path)->0));
    disposition(path, is_image, size, min_size, generated)
}

/// What becomes of the file at `path`, of `size` bytes, where `generated`
/// tells whether its stem looks like an earlier run's output.
pub fn classify(path: &str, size: u64, min_size: u64, generated: bool) -> (r: Disposition)
    ensures
        r == file_disposition(path@, size, min_size, generated),
{
    match file_ext(path) {
        None => Disposition::Ignore,
        Some(e) => {
            if !check_extension(e) {
                Disposition::Ignore
            } else if size <= min_size {
                Disposition::Skip
            } else if generated {
                Disposition::Generated
            } else {
                Disposition::Process
            }
        },
    }
}

/// What becomes of the file at `path`, of `size` bytes. Its stem is tested
/// against `GENERATED_PATTERN`; should the pattern fail to compile, the file
/// is taken for generated and left alone.
pub fn digest_path(path: &str, size: u64, min_size: u64) -> (r: Disposition)
    ensures
        r == file_disposition(path@, size, min_size, generated_stem(stem_of(path@))),
{
    let stem = file_stem(path);
    let generated = match matches_pattern(GENERATED_PATTERN, stem) {
        Some(b) => b,
        None => true,
    };
    classify(path, size, min_size, generated)
}

/// What becomes of an entry: a directory is walked into where walking
/// recurses and ignored where it does not; a file is judged as a file.
pub fn entry_disposition(path: &str, is_dir: bool, size: u64, recurse: bool, min_size: u64) -> (r: Disposition)
    ensures
        is_dir && recurse ==> r == Disposition::Descend,
        is_dir && !recurse ==> r == Disposition::Ignore,
        !is_dir ==> r == file_disposition(path@, size, min_size, generated_stem(stem_of(path@))),
{
    if is_dir {
        if recurse {
            Disposition::Descend
        } else {
            Disposition::Ignore
        }
    } else {
        digest_path(path, size, min_size)
    }
}

/// One step of a walk: count the entry at `path` as traversed, and as
/// skipped where it is too small, then say what becomes of it.
pub fn visit_entry(m: &mut Metrics, path: &str, is_dir: bool, size: u64, opts: &Opts) -> (r: Disposition)
    requires
        old(m).traversed < u32::MAX,
        old(m).skipped < u32::MAX,
    ensures
        is_dir && opts.is_recurse ==> r == Disposition::Descend,
        is_dir && !opts.is_recurse ==> r == Disposition::Ignore,
        !is_dir ==> r == file_disposition(path@, size, opts.min_size, generated_stem(stem_of(path@))),
        final(m).traversed == old(m).traversed + 1,
        final(m).skipped == if r == Disposition::Skip { old(m).skipped + 1 } else { old(m).skipped as int },
        final(m).count == old(m).count,
        final(m).resized == old(m).resized,
{
    m.record_traversed();
    let r = entry_disposition(path, is_dir, size, opts.is_recurse, opts.min_size);
    if r == Disposition::Skip {
        m.record_skipped();
    }
    r
}

} // verus!
