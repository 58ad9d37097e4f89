//! Matchers: how an adapter says which files it takes, and how the first
//! adapter that takes a file is found.

use vstd::prelude::*;
use crate::adapters::{metas_of, AdapterEntry, AdapterMeta};
use crate::text::{ends_with_extension, has_extension};

verus! {

/// A matcher that needs only the file's name.
#[derive(Debug)]
pub enum FastFileMatcher {
    /// The name ends in a dot and this extension.
    FileExtension(String),
}

/// Why an adapter was chosen for a file.
#[derive(Debug)]
pub enum FileMatcher {
    /// By the file's name alone.
    Fast(FastFileMatcher),
    /// By the content type sniffed from the first bytes.
    MimeType(String),
}

/// What is known of a file when an adapter is looked for.
#[derive(Debug)]
pub struct FileMeta {
    /// The sniffed content type; present only in accurate mode.
    pub mimetype: Option<String>,
    pub lossy_filename: String,
}

impl Clone for FastFileMatcher {
    fn clone(&self) -> (r: Self)
        ensures
            r == *self,
    {
        match self {
            FastFileMatcher::FileExtension(e) => FastFileMatcher::FileExtension(e.clone()),
        }
    }
}

impl Clone for FileMatcher {
    fn clone(&self) -> (r: Self)
        ensures
            r == *self,
    {
        match self {
            FileMatcher::Fast(f) => FileMatcher::Fast(f.clone()),
            FileMatcher::MimeType(m) => FileMatcher::MimeType(m.clone()),
        }
    }
}

/// Whether the fast matcher `m` takes a file of this name.
pub open spec fn fast_matcher_hits(m: FastFileMatcher, filename: Seq<char>) -> bool {
    match m {
        FastFileMatcher::FileExtension(ext) => has_extension(filename, ext@),
    }
}

/// Whether `m` takes the file: an extension against its name, a content
/// type against the sniffed one, which must be there and equal.
pub open spec fn matcher_hits(m: FileMatcher, filename: Seq<char>, mimetype: Option<Seq<char>>) -> bool {
    match m {
        FileMatcher::Fast(f) => fast_matcher_hits(f, filename),
        FileMatcher::MimeType(mime) => mimetype == Some(mime@),
    }
}

/// Whether the adapter's extension matchers count: always in fast mode; in
/// accurate mode only where it has no content matchers or asks to keep them.
pub open spec fn fast_matchers_count(meta: AdapterMeta, accurate: bool) -> bool {
    !accurate || meta.slow_matchers is None || meta.keep_fast_matchers_if_accurate
}

/// The first of the adapter's extension matchers, from index `from` on, that
/// takes the file name.
pub open spec fn first_fast_hit(fast: Seq<FastFileMatcher>, filename: Seq<char>, from: int) -> Option<
    FastFileMatcher,
>
    decreases fast.len() - from,
{
    if from < 0 || from >= fast.len() {
        None
    } else if fast_matcher_hits(fast[from], filename) {
        Some(fast[from])
    } else {
        first_fast_hit(fast, filename, from + 1)
    }
}

/// The first of the matchers, from index `from` on, that takes the file.
pub open spec fn first_slow_hit(
    slow: Seq<FileMatcher>,
    filename: Seq<char>,
    mimetype: Option<Seq<char>>,
    from: int,
) -> Option<FileMatcher>
    decreases slow.len() - from,
{
    if from < 0 || from >= slow.len() {
        None
    } else if matcher_hits(slow[from], filename, mimetype) {
        Some(slow[from])
    } else {
        first_slow_hit(slow, filename, mimetype, from + 1)
    }
}

/// The matcher by which the adapter takes the file, if it does: its
/// extension matchers are tried first, where they count, then, in accurate
/// mode, its content matchers; within each list the first that hits.
pub open spec fn adapter_hit(
    meta: AdapterMeta,
    accurate: bool,
    filename: Seq<char>,
    mimetype: Option<Seq<char>>,
) -> Option<FileMatcher> {
    let fast = if fast_matchers_count(meta, accurate) {
        first_fast_hit(meta.fast_matchers@, filename, 0)
    } else {
        None
    };
    match fast {
        Some(f) => Some(FileMatcher::Fast(f)),
        None => if accurate && meta.slow_matchers is Some {
            first_slow_hit(meta.slow_matchers->0@, filename, mimetype, 0)
        } else {
            None
        },
    }
}

/// The first adapter in priority order, from index `from` on, that takes
/// the file, with the matcher by which it does.
pub open spec fn first_match(
    metas: Seq<AdapterMeta>,
    accurate: bool,
    filename: Seq<char>,
    mimetype: Option<Seq<char>>,
    from: int,
) -> Option<(int, FileMatcher)>
    decreases metas.len() - from,
{
    if from < 0 || from >= metas.len() {
        None
    } else {
        match adapter_hit(metas[from], accurate, filename, mimetype) {
            Some(m) => Some((from, m)),
            None => first_match(metas, accurate, filename, mimetype, from + 1),
        }
    }
}

impl FileMeta {
    /// The sniffed content type as characters.
    pub open spec fn mimetype_view(self) -> Option<Seq<char>> {
        match self.mimetype {
            Some(t) => Some(t@),
            None => None,
        }
    }
}

/// Tests one matcher against a file.
pub fn matches_file(m: &FileMatcher, file: &FileMeta) -> (hit: bool)
    ensures
        hit == matcher_hits(*m, file.lossy_filename@, file.mimetype_view()),
{
    match m {
        FileMatcher::Fast(FastFileMatcher::FileExtension(ext)) => ends_with_extension(
            file.lossy_filename.as_str(),
            ext.as_str(),
        ),
        FileMatcher::MimeType(mime) => match &file.mimetype {
            Some(t) => *t == *mime,
            None => false,
        },
    }
}

/// Finds the matcher by which one adapter takes the file.
pub fn match_one(meta: &AdapterMeta, accurate: bool, file: &FileMeta) -> (hit: Option<FileMatcher>)
    ensures
        hit == adapter_hit(*meta, accurate, file.lossy_filename@, file.mimetype_view()),
{
    let fast_count = !accurate || meta.slow_matchers.is_none()
        || meta.keep_fast_matchers_if_accurate;
    if fast_count {
        let mut i: usize = 0;
        while i < meta.fast_matchers.len()
            invariant
                i <= meta.fast_matchers.len(),
                fast_matchers_count(*meta, accurate),
                first_fast_hit(meta.fast_matchers@, file.lossy_filename@, 0) == first_fast_hit(
                    meta.fast_matchers@,
                    file.lossy_filename@,
                    i as int,
                ),
            decreases meta.fast_matchers.len() - i,
        {
            match &meta.fast_matchers[i] {
                FastFileMatcher::FileExtension(ext) => {
                    if ends_with_extension(file.lossy_filename.as_str(), ext.as_str()) {
                        return Some(FileMatcher::Fast(meta.fast_matchers[i].clone()));
                    }
                },
            }
            i += 1;
        }
    }
    if accurate {
        match &meta.slow_matchers {
            Some(slow) => {
                let mut j: usize = 0;
                while j < slow.len()
                    invariant
                        j <= slow.len(),
                        accurate,
                        meta.slow_matchers == Some(*slow),
                        !fast_matchers_count(*meta, accurate) || first_fast_hit(
                            meta.fast_matchers@,
                            file.lossy_filename@,
                            0,
                        ) is None,
                        first_slow_hit(slow@, file.lossy_filename@, file.mimetype_view(), 0)
                            == first_slow_hit(
                            slow@,
                            file.lossy_filename@,
                            file.mimetype_view(),
                            j as int,
                        ),
                    decreases slow.len() - j,
                {
                    if matches_file(&slow[j], file) {
                        return Some(slow[j].clone());
                    }
                    j += 1;
                }
                None
            },
            None => None,
        }
    } else {
        None
    }
}

/// Finds the first of the adapters, in their order, that takes the file:
/// its place in the list and the matcher by which it was found.
pub fn adapter_matcher<A>(adapters: &Vec<&AdapterEntry<A>>, accurate: bool, file: &FileMeta) -> (hit:
    Option<(usize, FileMatcher)>)
    ensures
        match hit {
            Some((i, m)) => i < adapters.len() && first_match(
                metas_of(adapters@),
                accurate,
                file.lossy_filename@,
                file.mimetype_view(),
                0,
            ) == Some((i as int, m)),
            None => first_match(
                metas_of(adapters@),
                accurate,
                file.lossy_filename@,
                file.mimetype_view(),
                0,
            ) is None,
        },
{
    let ghost metas = metas_of(adapters@);
    let mut i: usize = 0;
    while i < adapters.len()
        invariant
            i <= adapters.len(),
            metas == metas_of(adapters@),
            first_match(metas, accurate, file.lossy_filename@, file.mimetype_view(), 0)
                == first_match(
                metas,
                accurate,
                file.lossy_filename@,
                file.mimetype_view(),
                i as int,
            ),
        decreases adapters.len() - i,
    {
        assert(metas[i as int] == adapters@[i as int].meta);
        match match_one(&adapters[i].meta, accurate, file) {
            Some(m) => {
                return Some((i, m));
            },
            None => {},
        }
        i += 1;
    }
    None
}

} // verus!
