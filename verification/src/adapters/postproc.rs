//! The adapter that stands in where no other takes a file.

use vstd::prelude::*;
use vstd::string::StringExecFns;
use vstd::utf8::encode_utf8;
use crate::adapters::{AdaptInfo, AdapterMeta};

verus! {

/// Puts the line prefix before each line of a file.
#[derive(Clone, Copy, Debug)]
pub struct PostprocPrefix;

/// The byte that ends a line.
pub const NEWLINE: u8 = 10;

/// `content` with `prefix` put in after each line end.
pub open spec fn prefix_after_newlines(prefix: Seq<u8>, content: Seq<u8>) -> Seq<u8>
    decreases content.len(),
{
    if content.len() == 0 {
        Seq::empty()
    } else if content.last() == NEWLINE {
        prefix_after_newlines(prefix, content.drop_last()).push(NEWLINE) + prefix
    } else {
        prefix_after_newlines(prefix, content.drop_last()).push(content.last())
    }
}

/// What the stand-in makes of a file's bytes: the prefix, the bytes with
/// the prefix after each line end, and one line end more.
pub open spec fn postprocessed(prefix: Seq<u8>, content: Seq<u8>) -> Seq<u8> {
    (prefix + prefix_after_newlines(prefix, content)).push(NEWLINE)
}

/// Whether `out` is `ai` after the stand-in: the same file, its bytes
/// prefixed line by line, and nothing left to postprocess.
pub open spec fn postprocessed_unit(ai: AdaptInfo, out: AdaptInfo) -> bool {
    &&& out.filepath_hint == ai.filepath_hint
    &&& out.is_real_file == ai.is_real_file
    &&& out.archive_recursion_depth == ai.archive_recursion_depth
    &&& out.line_prefix == ai.line_prefix
    &&& !out.postprocess
    &&& out.inp@ == postprocessed(encode_utf8(ai.line_prefix@), ai.inp@)
}

/// Puts `prefix` before each line of `content`.
pub fn postproc_prefix(prefix: &[u8], content: &Vec<u8>) -> (out: Vec<u8>)
    ensures
        out@ == postprocessed(prefix@, content@),
{
    let mut out: Vec<u8> = Vec::new();
    out.extend_from_slice(prefix);
    assert(out@ =~= prefix@);
    let mut i: usize = 0;
    assert(content@.take(0) =~= Seq::<u8>::empty());
    while i < content.len()
        invariant
            i <= content.len(),
            out@ == prefix@ + prefix_after_newlines(prefix@, content@.take(i as int)),
        decreases content.len() - i,
    {
        let b = content[i];
        let ghost before = out@;
        proof {
            assert(content@.take(i + 1).drop_last() =~= content@.take(i as int));
            assert(content@.take(i + 1).last() == b);
        }
        out.push(b);
        if b == NEWLINE {
            let ghost pushed = out@;
            out.extend_from_slice(prefix);
            assert(out@ =~= pushed + prefix@);
            assert(out@ =~= prefix@ + prefix_after_newlines(prefix@, content@.take(i + 1)));
        } else {
            assert(out@ =~= prefix@ + prefix_after_newlines(prefix@, content@.take(i + 1)));
        }
        i += 1;
    }
    assert(content@.take(content.len() as int) =~= content@);
    out.push(NEWLINE);
    out
}

impl PostprocPrefix {
    pub fn new() -> (r: PostprocPrefix)
        ensures
            r == PostprocPrefix,
    {
        PostprocPrefix
    }

    /// What this adapter says of itself: it takes no file by itself and
    /// yields nothing that needs another adapter.
    pub fn metadata(&self) -> (meta: AdapterMeta)
        ensures
            meta.name@ == "postprocprefix"@,
            meta.version == 1,
            meta.description@
                == "Adds the line prefix to each line (e.g. the filename within a zip)"@,
            !meta.recurses,
            meta.fast_matchers@.len() == 0,
            meta.slow_matchers is None,
            !meta.keep_fast_matchers_if_accurate,
            !meta.disabled_by_default,
    {
        AdapterMeta {
            name: String::from_str("postprocprefix"),
            version: 1,
            description: String::from_str(
                "Adds the line prefix to each line (e.g. the filename within a zip)",
            ),
            recurses: false,
            fast_matchers: Vec::new(),
            slow_matchers: None,
            keep_fast_matchers_if_accurate: false,
            disabled_by_default: false,
        }
    }

    /// Yields the one file that `ai` becomes with its prefix before each
    /// line.
    pub fn adapt(&self, ai: AdaptInfo) -> (units: Vec<AdaptInfo>)
        ensures
            units.len() == 1,
            postprocessed_unit(ai, units[0]),
    {
        let read = postproc_prefix(ai.line_prefix.as_str().as_bytes(), &ai.inp);
        let out = AdaptInfo {
            filepath_hint: ai.filepath_hint,
            is_real_file: ai.is_real_file,
            archive_recursion_depth: ai.archive_recursion_depth,
            inp: read,
            line_prefix: ai.line_prefix,
            postprocess: false,
        };
        let mut units: Vec<AdaptInfo> = Vec::new();
        units.push(out);
        units
    }
}

} // verus!
