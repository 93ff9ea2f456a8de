use vstd::prelude::*;
use vstd::string::StrSliceExecFns;

use crate::error::Error;
use crate::values::str_eq;

verus! {

/// A supported instrument-log format, selected by the uploaded file's
/// extension.
#[derive(Clone, Copy, Debug, PartialEq, Eq, Structural)]
pub enum LogFormat {
    /// `csv`: a comma-separated export.
    Csv,
    /// `txt`: a plain-text export.
    Txt,
    /// `zip`: a zipped HTML export.
    ZippedHtml,
}

/// The extension of a file name: the characters after the last `.`, or
/// `None` when the name holds no `.` (an empty name included).
pub open spec fn spec_extension(name: Seq<char>) -> Option<Seq<char>>
    decreases name.len(),
{
    if name.len() == 0 {
        None
    } else if name.last() == '.' {
        Some(Seq::empty())
    } else {
        match spec_extension(name.drop_last()) {
            Some(ext) => Some(ext.push(name.last())),
            None => None,
        }
    }
}

/// The format an uploaded file name selects. The match is case-sensitive:
/// `readings.CSV` selects no format.
pub open spec fn spec_format(name: Seq<char>) -> Option<LogFormat> {
    match spec_extension(name) {
        None => None,
        Some(ext) => if ext == "csv"@ {
            Some(LogFormat::Csv)
        } else if ext == "txt"@ {
            Some(LogFormat::Txt)
        } else if ext == "zip"@ {
            Some(LogFormat::ZippedHtml)
        } else {
            None
        },
    }
}

/// A name without any `.` has no extension.
proof fn lemma_extension_none(name: Seq<char>)
    requires
        forall|j: int| 0 <= j < name.len() ==> name[j] != '.',
    ensures
        spec_extension(name) is None,
    decreases name.len(),
{
    if name.len() > 0 {
        lemma_extension_none(name.drop_last());
    }
}

/// The extension is the suffix after the last `.`.
proof fn lemma_extension_at(name: Seq<char>, i: int)
    requires
        1 <= i <= name.len(),
        name[i - 1] == '.',
        forall|j: int| i <= j < name.len() ==> name[j] != '.',
    ensures
        spec_extension(name) == Some(name.subrange(i, name.len() as int)),
    decreases name.len(),
{
    if i == name.len() {
        assert(name.last() == '.');
        assert(name.subrange(i, name.len() as int) =~= Seq::<char>::empty());
    } else {
        assert(name.last() != '.');
        lemma_extension_at(name.drop_last(), i);
        assert(name.drop_last().subrange(i, name.drop_last().len() as int).push(name.last())
            =~= name.subrange(i, name.len() as int));
    }
}

/// Selects the parser strategy for an uploaded file by the extension after
/// the last `.` of its name, case-sensitively. A name without a `.`, or
/// with an extension other than `csv`, `txt` or `zip`, is rejected as
/// unsupported, and no parser runs for it.
pub fn dispatch_upload(file_name: &str) -> (r: Result<LogFormat, Error>)
    ensures
        match spec_format(file_name@) {
            Some(fmt) => r matches Ok(f) && f == fmt,
            None => r matches Err(e) && e matches Error::UnsupportedFormat,
        },
{
    let len = file_name.unicode_len();
    let mut i: usize = len;
    while i > 0 && file_name.get_char(i - 1) != '.'
        invariant
            i <= len,
            len == file_name@.len(),
            forall|j: int| i <= j < file_name@.len() ==> file_name@[j] != '.',
        decreases i,
    {
        i = i - 1;
    }
    if i == 0 {
        proof {
            lemma_extension_none(file_name@);
        }
        return Err(Error::UnsupportedFormat);
    }
    proof {
        lemma_extension_at(file_name@, i as int);
    }
    let ext = file_name.substring_char(i, len);
    if str_eq(ext, "csv") {
        Ok(LogFormat::Csv)
    } else if str_eq(ext, "txt") {
        Ok(LogFormat::Txt)
    } else if str_eq(ext, "zip") {
        Ok(LogFormat::ZippedHtml)
    } else {
        Err(Error::UnsupportedFormat)
    }
}

} // verus!
