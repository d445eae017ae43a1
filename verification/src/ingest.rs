//! What the readers of trip logs decide before any number is read: which
//! files hold which format, and where the two coordinates stand in a text of
//! the form `geo:latitude,longitude`. Names and texts are taken as bytes.

use vstd::prelude::*;

verus! {

/// The byte `,`, which parts the two coordinates of a geo text.
pub const COMMA: u8 = 0x2c;

/// The format of a trip log, as its file name tells it.
#[derive(Clone, Copy, Debug, PartialEq, Eq, Structural)]
pub enum LogFormat {
    /// A GPX document, plain or compressed with gzip.
    Gpx { gzipped: bool },
    /// A FIT recording compressed with gzip.
    Fit,
}

/// The bytes of `.gpx`.
pub open spec fn gpx_suffix() -> Seq<u8> {
    seq![0x2e, 0x67, 0x70, 0x78]
}

/// The bytes of `.gpx.gz`.
pub open spec fn gpx_gz_suffix() -> Seq<u8> {
    seq![0x2e, 0x67, 0x70, 0x78, 0x2e, 0x67, 0x7a]
}

/// The bytes of `.fit.gz`.
pub open spec fn fit_gz_suffix() -> Seq<u8> {
    seq![0x2e, 0x66, 0x69, 0x74, 0x2e, 0x67, 0x7a]
}

/// The bytes of `geo:`.
pub open spec fn geo_prefix() -> Seq<u8> {
    seq![0x67, 0x65, 0x6f, 0x3a]
}

/// Whether `text` begins with `prefix`.
pub open spec fn has_prefix(text: Seq<u8>, prefix: Seq<u8>) -> bool {
    prefix.len() <= text.len() && text.subrange(0, prefix.len() as int) == prefix
}

/// Whether `text` ends with `suffix`.
pub open spec fn has_suffix(text: Seq<u8>, suffix: Seq<u8>) -> bool {
    suffix.len() <= text.len() && text.subrange(text.len() - suffix.len(), text.len() as int)
        == suffix
}

/// The format that a file name stands for: `.gpx` and `.gpx.gz` are GPX,
/// `.fit.gz` is FIT, and no other file is read.
pub open spec fn format_of(name: Seq<u8>) -> Option<LogFormat> {
    if has_suffix(name, gpx_suffix()) {
        Some(LogFormat::Gpx { gzipped: false })
    } else if has_suffix(name, gpx_gz_suffix()) {
        Some(LogFormat::Gpx { gzipped: true })
    } else if has_suffix(name, fit_gz_suffix()) {
        Some(LogFormat::Fit)
    } else {
        None
    }
}

/// Whether `at` is the place of the one comma that follows the `geo:` prefix.
pub open spec fn parts_geo_text(text: Seq<u8>, at: int) -> bool {
    &&& has_prefix(text, geo_prefix())
    &&& 4 <= at < text.len()
    &&& text[at] == COMMA
    &&& forall|i: int| 4 <= i < text.len() && i != at ==> text[i] != COMMA
}

/// Whether `text` begins with `prefix`.
pub fn starts_with(text: &[u8], prefix: &[u8]) -> (found: bool)
    ensures
        found == has_prefix(text@, prefix@),
{
    let n: usize = prefix.len();
    if n > text.len() {
        return false;
    }
    let mut i: usize = 0;
    while i < n
        invariant
            n == prefix.len(),
            n <= text.len(),
            i <= n,
            forall|k: int| 0 <= k < i ==> text[k] == prefix[k],
        decreases n - i,
    {
        if text[i] != prefix[i] {
            proof {
                assert(text@.subrange(0, n as int)[i as int] == text[i as int]);
            }
            return false;
        }
        i = i + 1;
    }
    proof {
        assert(text@.subrange(0, n as int) =~= prefix@);
    }
    true
}

/// Whether `text` ends with `suffix`.
pub fn ends_with(text: &[u8], suffix: &[u8]) -> (found: bool)
    ensures
        found == has_suffix(text@, suffix@),
{
    let n: usize = suffix.len();
    if n > text.len() {
        return false;
    }
    let start: usize = text.len() - n;
    let mut i: usize = 0;
    while i < n
        invariant
            n == suffix.len(),
            n <= text.len(),
            start == text.len() - n,
            i <= n,
            forall|k: int| 0 <= k < i ==> text[start + k] == suffix[k],
        decreases n - i,
    {
        if text[start + i] != suffix[i] {
            proof {
                assert(text@.subrange(start as int, text.len() as int)[i as int] == text[start + i]);
            }
            return false;
        }
        i = i + 1;
    }
    proof {
        assert(text@.subrange(start as int, text.len() as int) =~= suffix@);
    }
    true
}

/// The format of the trip log with the given file name, or `None` for a file
/// that is not read.
pub fn classify_file_name(name: &[u8]) -> (format: Option<LogFormat>)
    ensures
        format == format_of(name@),
{
    let gpx: [u8; 4] = [0x2e, 0x67, 0x70, 0x78];
    let gpx_gz: [u8; 7] = [0x2e, 0x67, 0x70, 0x78, 0x2e, 0x67, 0x7a];
    let fit_gz: [u8; 7] = [0x2e, 0x66, 0x69, 0x74, 0x2e, 0x67, 0x7a];
    proof {
        assert(gpx@ =~= gpx_suffix());
        assert(gpx_gz@ =~= gpx_gz_suffix());
        assert(fit_gz@ =~= fit_gz_suffix());
    }
    if ends_with(name, gpx.as_slice()) {
        Some(LogFormat::Gpx { gzipped: false })
    } else if ends_with(name, gpx_gz.as_slice()) {
        Some(LogFormat::Gpx { gzipped: true })
    } else if ends_with(name, fit_gz.as_slice()) {
        Some(LogFormat::Fit)
    } else {
        None
    }
}

/// Whether the text begins with `geo:`.
pub fn is_geo_string(text: &[u8]) -> (found: bool)
    ensures
        found == has_prefix(text@, geo_prefix()),
{
    let prefix: [u8; 4] = [0x67, 0x65, 0x6f, 0x3a];
    proof {
        assert(prefix@ =~= geo_prefix());
    }
    starts_with(text, prefix.as_slice())
}

/// Finds the comma of a text of the form `geo:latitude,longitude`. The
/// latitude stands between the prefix and the comma, the longitude behind the
/// comma. A text without the prefix, without a comma or with more than one
/// has no such place.
pub fn split_geo_string(text: &[u8]) -> (comma: Option<usize>)
    ensures
        comma matches Some(at) ==> parts_geo_text(text@, at as int),
        comma is None ==> forall|at: int| !parts_geo_text(text@, at),
{
    if !is_geo_string(text) {
        return None;
    }
    let n: usize = text.len();
    let mut found: Option<usize> = None;
    let mut i: usize = 4;
    while i < n
        invariant
            n == text.len(),
            4 <= i <= n,
            found matches Some(at) ==> 4 <= at < i && text[at as int] == COMMA,
            found matches Some(at) ==> forall|k: int| 4 <= k < i && k != at ==> text[k] != COMMA,
            found is None ==> forall|k: int| 4 <= k < i ==> text[k] != COMMA,
        decreases n - i,
    {
        if text[i] == COMMA {
            match found {
                Some(at) => {
                    proof {
                        assert forall|other: int| !parts_geo_text(text@, other) by {
                            if other == at as int {
                                assert(text[i as int] == COMMA);
                            } else {
                                assert(text[at as int] == COMMA);
                            }
                        }
                    }
                    return None;
                },
                None => {
                    found = Some(i);
                },
            }
        }
        i = i + 1;
    }
    found
}

} // verus!
