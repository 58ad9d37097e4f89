//! The zip adapter.

use vstd::prelude::*;
use vstd::string::StringExecFns;
use crate::adapters::{AdaptInfo, AdapterMeta};
use crate::matching::{FastFileMatcher, FileMatcher};

verus! {

/// Reads zip archives and hands their entries on as nested work units.
#[derive(Clone, Copy, Debug)]
pub struct ZipAdapter;

/// One file of an archive, as read from it.
#[derive(Debug)]
pub struct ZipEntry {
    /// The entry's name inside the archive.
    pub filename: String,
    /// Its bytes, unpacked.
    pub content: Vec<u8>,
}

/// Whether `unit` is the work unit for `entry` of the archive `ai`: named
/// as the entry, not on disk, one level deeper, and shown behind the
/// archive's prefix with the entry's name and `: `.
pub open spec fn nested_unit(ai: AdaptInfo, entry: ZipEntry, unit: AdaptInfo) -> bool {
    &&& unit.filepath_hint == entry.filename
    &&& !unit.is_real_file
    &&& unit.archive_recursion_depth == ai.archive_recursion_depth + 1
    &&& unit.inp == entry.content
    &&& unit.line_prefix@ == ai.line_prefix@ + entry.filename@ + ": "@
    &&& unit.postprocess == ai.postprocess
}

impl ZipAdapter {
    pub fn new() -> (r: ZipAdapter)
        ensures
            r == ZipAdapter,
    {
        ZipAdapter
    }

    /// What this adapter says of itself: it takes `.zip` files, or in
    /// accurate mode what looks like a zip archive, and recurses.
    pub fn metadata(&self) -> (meta: AdapterMeta)
        ensures
            meta.name@ == "zip"@,
            meta.version == 1,
            meta.description@
                == "Reads a zip file as a stream and recurses down into its contents"@,
            meta.recurses,
            meta.fast_matchers@.len() == 1,
            meta.fast_matchers@[0] matches FastFileMatcher::FileExtension(ext) && ext@ == "zip"@,
            meta.slow_matchers matches Some(slow) && slow@.len() == 1 && (
            slow@[0] matches FileMatcher::MimeType(mime) && mime@ == "application/zip"@),
            !meta.keep_fast_matchers_if_accurate,
            !meta.disabled_by_default,
    {
        let mut fast_matchers: Vec<FastFileMatcher> = Vec::new();
        fast_matchers.push(FastFileMatcher::FileExtension(String::from_str("zip")));
        let mut slow_matchers: Vec<FileMatcher> = Vec::new();
        slow_matchers.push(FileMatcher::MimeType(String::from_str("application/zip")));
        AdapterMeta {
            name: String::from_str("zip"),
            version: 1,
            description: String::from_str(
                "Reads a zip file as a stream and recurses down into its contents",
            ),
            recurses: true,
            fast_matchers,
            slow_matchers: Some(slow_matchers),
            keep_fast_matchers_if_accurate: false,
            disabled_by_default: false,
        }
    }

    /// Makes a work unit of each entry read from the archive `ai`, in the
    /// order of the entries.
    pub fn adapt(&self, ai: AdaptInfo, _detection_reason: &FileMatcher, entries: Vec<ZipEntry>) -> (units:
        Vec<AdaptInfo>)
        requires
            ai.archive_recursion_depth < i32::MAX,
        ensures
            units.len() == entries.len(),
            forall|i: int| 0 <= i < units.len() ==> nested_unit(ai, entries[i], #[trigger] units[i]),
    {
        let mut units: Vec<AdaptInfo> = Vec::new();
        for entry in it: entries
            invariant
                units.len() == it.index(),
                ai.archive_recursion_depth < i32::MAX,
                forall|i: int| 0 <= i < units.len() ==> nested_unit(ai, it.seq()[i], #[trigger] units[i]),
        {
            let new_line_prefix = ai.line_prefix.clone().concat(entry.filename.as_str()).concat(": ");
            units.push(
                AdaptInfo {
                    filepath_hint: entry.filename,
                    is_real_file: false,
                    archive_recursion_depth: ai.archive_recursion_depth + 1,
                    inp: entry.content,
                    line_prefix: new_line_prefix,
                    postprocess: ai.postprocess,
                },
            );
        }
        units
    }
}

} // verus!
