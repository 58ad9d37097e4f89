//! Adapters: what is known of each, the work units they take and yield, and
//! the interface through which the engine runs them.

pub mod postproc;
pub mod zip;

use vstd::prelude::*;
use vstd::string::{StrSliceExecFns, StringExecFns};
use crate::error::PreprocError;
use crate::matching::{FastFileMatcher, FileMatcher};

verus! {

/// What an adapter says of itself. It never changes while the process runs.
#[derive(Debug)]
pub struct AdapterMeta {
    /// Unique among the adapters.
    pub name: String,
    /// Raised whenever the adapter's output changes: cached results of
    /// another version are not found again.
    pub version: i32,
    pub description: String,
    /// Whether its output may hold files that need adapters themselves.
    pub recurses: bool,
    /// File extensions it takes.
    pub fast_matchers: Vec<FastFileMatcher>,
    /// Content types it takes, tried in accurate mode.
    pub slow_matchers: Option<Vec<FileMatcher>>,
    /// Whether the extensions still count in accurate mode.
    pub keep_fast_matchers_if_accurate: bool,
    /// Left out unless the configuration names it.
    pub disabled_by_default: bool,
}

/// One file on its way through the adapters.
#[derive(Debug)]
pub struct AdaptInfo {
    /// The name by which the file is matched and shown; for a file inside
    /// an archive, not a path on disk.
    pub filepath_hint: String,
    /// Whether the file lies on disk under `filepath_hint`.
    pub is_real_file: bool,
    /// How many archives were opened to get at this file.
    pub archive_recursion_depth: i32,
    /// The file's bytes.
    pub inp: Vec<u8>,
    /// What is shown before each of its lines.
    pub line_prefix: String,
    /// Whether its lines are still to get their prefix.
    pub postprocess: bool,
}

/// The failure of an adapter on a file.
#[derive(Debug)]
pub struct AdaptError {
    pub message: String,
}

/// An adapter that can be run on a work unit.
pub trait FileAdapter {
    /// Decodes `ai` into the files it holds. Each of them lies one level
    /// deeper than `ai`, and its line prefix starts with that of `ai`.
    fn adapt(&self, ai: AdaptInfo, detection_reason: &FileMatcher) -> (r: Result<
        Vec<AdaptInfo>,
        AdaptError,
    >)
        requires
            ai.archive_recursion_depth < i32::MAX,
        ensures
            r matches Ok(units) ==> forall|i: int|
                0 <= i < units.len() ==> (#[trigger] units[i]).archive_recursion_depth
                    == ai.archive_recursion_depth + 1 && ai.line_prefix@.is_prefix_of(
                    units[i].line_prefix@,
                ),
    ;
}

/// A registered adapter: what it says of itself, and the code that runs it.
pub struct AdapterEntry<A> {
    pub meta: AdapterMeta,
    pub adapter: A,
}

/// The metadata of the entries, in their order.
pub open spec fn metas_of<A>(entries: Seq<&AdapterEntry<A>>) -> Seq<AdapterMeta> {
    entries.map_values(|e: &AdapterEntry<A>| e.meta)
}

/// The adapters among the first `upto` that are on unless the
/// configuration says otherwise, in their order.
pub open spec fn enabled_by_default<'a, A>(registry: Seq<AdapterEntry<A>>, upto: int) -> Seq<
    &'a AdapterEntry<A>,
>
    decreases upto,
{
    if upto <= 0 || upto > registry.len() {
        Seq::empty()
    } else if registry[upto - 1].meta.disabled_by_default {
        enabled_by_default(registry, upto - 1)
    } else {
        enabled_by_default(registry, upto - 1).push(&registry[upto - 1])
    }
}

/// The place of the first adapter, from index `from` on, with this name.
pub open spec fn find_adapter<A>(registry: Seq<AdapterEntry<A>>, name: Seq<char>, from: int) -> Option<
    int,
>
    decreases registry.len() - from,
{
    if from < 0 || from >= registry.len() {
        None
    } else if registry[from].meta.name@ == name {
        Some(from)
    } else {
        find_adapter(registry, name, from + 1)
    }
}

/// The adapters that the first `upto` names stand for, in the order of the
/// names; the first name that stands for none is the error.
pub open spec fn named_adapters<'a, A>(
    registry: Seq<AdapterEntry<A>>,
    names: Seq<String>,
    upto: int,
) -> Result<Seq<&'a AdapterEntry<A>>, PreprocError>
    decreases upto,
{
    if upto <= 0 || upto > names.len() {
        Ok(Seq::empty())
    } else {
        match named_adapters(registry, names, upto - 1) {
            Err(e) => Err(e),
            Ok(found) => match find_adapter(registry, names[upto - 1]@, 0) {
                Some(i) => Ok(found.push(&registry[i])),
                None => Err(PreprocError::UnknownAdapter(names[upto - 1])),
            },
        }
    }
}

/// Whether the configured names say which adapters to leave out: the first
/// of them starts with `-`.
pub open spec fn is_deny_list(names: Seq<String>) -> bool {
    names.len() > 0 && names[0]@.len() > 0 && names[0]@[0] == '-'
}

/// The name that is left out at place `k` of a deny list: the name as
/// configured, the first without its `-`.
pub open spec fn denied_name(names: Seq<String>, k: int) -> Seq<char> {
    if k == 0 {
        names[0]@.subrange(1, names[0]@.len() as int)
    } else {
        names[k]@
    }
}

/// The place of the first adapter of the list, from index `from` on, with
/// this name.
pub open spec fn position_of<A>(list: Seq<&AdapterEntry<A>>, name: Seq<char>, from: int) -> Option<
    int,
>
    decreases list.len() - from,
{
    if from < 0 || from >= list.len() {
        None
    } else if list[from].meta.name@ == name {
        Some(from)
    } else {
        position_of(list, name, from + 1)
    }
}

/// The default set without the adapters that the first `upto` names of a
/// deny list leave out, in the order of the registry; the first name that is
/// not in what is left is the error.
pub open spec fn without_denied<'a, A>(
    registry: Seq<AdapterEntry<A>>,
    names: Seq<String>,
    upto: int,
) -> Result<Seq<&'a AdapterEntry<A>>, PreprocError>
    decreases upto,
{
    if upto <= 0 || upto > names.len() {
        Ok(enabled_by_default(registry, registry.len() as int))
    } else {
        match without_denied(registry, names, upto - 1) {
            Err(e) => Err(e),
            Ok(left) => match position_of(left, denied_name(names, upto - 1), 0) {
                Some(i) => Ok(left.remove(i)),
                None => Err(PreprocError::CannotRemoveAdapter(names[upto - 1])),
            },
        }
    }
}

/// The active adapters in priority order.
/// - No names configured: those that are on by default, in the order of
///   the registry.
/// - The first name starts with `-`: those that are on by default, without
///   the named ones.
/// - Else: the named ones, in the order of the names.
pub open spec fn active_adapters<'a, A>(registry: Seq<AdapterEntry<A>>, names: Seq<String>) -> Result<
    Seq<&'a AdapterEntry<A>>,
    PreprocError,
> {
    if names.len() == 0 {
        Ok(enabled_by_default(registry, registry.len() as int))
    } else if is_deny_list(names) {
        without_denied(registry, names, names.len() as int)
    } else {
        named_adapters(registry, names, names.len() as int)
    }
}

/// Once a name stands for no adapter, the error stays whatever follows.
proof fn lemma_named_error_stays<A>(
    registry: Seq<AdapterEntry<A>>,
    names: Seq<String>,
    at: int,
    upto: int,
)
    requires
        0 < at <= upto <= names.len(),
        named_adapters(registry, names, at) is Err,
    ensures
        named_adapters(registry, names, upto) == named_adapters(registry, names, at),
    decreases upto - at,
{
    if at < upto {
        lemma_named_error_stays(registry, names, at, upto - 1);
    }
}

/// Once a name cannot be left out, the error stays whatever follows.
proof fn lemma_denied_error_stays<A>(
    registry: Seq<AdapterEntry<A>>,
    names: Seq<String>,
    at: int,
    upto: int,
)
    requires
        0 < at <= upto <= names.len(),
        without_denied(registry, names, at) is Err,
    ensures
        without_denied(registry, names, upto) == without_denied(registry, names, at),
    decreases upto - at,
{
    if at < upto {
        lemma_denied_error_stays(registry, names, at, upto - 1);
    }
}

/// The adapters that are on by default, in the order of the registry.
fn default_adapters<'a, A>(registry: &'a Vec<AdapterEntry<A>>) -> (out: Vec<&'a AdapterEntry<A>>)
    ensures
        out@ == enabled_by_default(registry@, registry.len() as int),
{
    let mut out: Vec<&'a AdapterEntry<A>> = Vec::new();
    let mut i: usize = 0;
    while i < registry.len()
        invariant
            i <= registry.len(),
            out@ == enabled_by_default(registry@, i as int),
        decreases registry.len() - i,
    {
        if !registry[i].meta.disabled_by_default {
            out.push(&registry[i]);
        }
        i += 1;
    }
    out
}

/// The default set without the adapters that the names leave out.
fn deny_adapters<'a, A>(registry: &'a Vec<AdapterEntry<A>>, names: &Vec<String>) -> (r: Result<
    Vec<&'a AdapterEntry<A>>,
    PreprocError,
>)
    requires
        is_deny_list(names@),
    ensures
        match r {
            Ok(v) => without_denied(registry@, names@, names.len() as int) == Ok::<
                _,
                PreprocError,
            >(v@),
            Err(e) => without_denied(registry@, names@, names.len() as int) == Err::<
                Seq<&AdapterEntry<A>>,
                _,
            >(e),
        },
{
    let mut out = default_adapters(registry);
    let mut k: usize = 0;
    while k < names.len()
        invariant
            k <= names.len(),
            is_deny_list(names@),
            without_denied(registry@, names@, k as int) == Ok::<_, PreprocError>(out@),
        decreases names.len() - k,
    {
        let denied = if k == 0 {
            let first = names[0].as_str();
            String::from_str(first.substring_char(1, first.unicode_len()))
        } else {
            names[k].clone()
        };
        assert(denied@ == denied_name(names@, k as int));
        let mut j: usize = 0;
        let mut found: Option<usize> = None;
        while j < out.len() && found.is_none()
            invariant
                j <= out.len(),
                match found {
                    Some(i) => position_of(out@, denied@, 0) == Some(i as int) && i < out.len(),
                    None => position_of(out@, denied@, 0) == position_of(out@, denied@, j as int),
                },
            decreases out.len() - j + (if found is None { 1int } else { 0int }),
        {
            if out[j].meta.name == denied {
                found = Some(j);
            } else {
                j += 1;
            }
        }
        match found {
            Some(i) => {
                out.remove(i);
            },
            None => {
                proof {
                    lemma_denied_error_stays(registry@, names@, k + 1, names.len() as int);
                }
                return Err(PreprocError::CannotRemoveAdapter(names[k].clone()));
            },
        }
        k += 1;
    }
    Ok(out)
}

/// Builds the list of active adapters from the registry and the configured
/// names: the default set, the default set without the named adapters, or
/// the named adapters.
pub fn get_adapters_filtered<'a, A>(registry: &'a Vec<AdapterEntry<A>>, names: &Vec<String>) -> (r:
    Result<Vec<&'a AdapterEntry<A>>, PreprocError>)
    ensures
        match r {
            Ok(v) => active_adapters(registry@, names@) == Ok::<_, PreprocError>(v@),
            Err(e) => active_adapters(registry@, names@) == Err::<Seq<&AdapterEntry<A>>, _>(e),
        },
{
    if names.len() == 0 {
        return Ok(default_adapters(registry));
    }
    let first = names[0].as_str();
    if first.unicode_len() > 0 && first.get_char(0) == '-' {
        return deny_adapters(registry, names);
    }
    let mut out: Vec<&'a AdapterEntry<A>> = Vec::new();
    let mut k: usize = 0;
    while k < names.len()
        invariant
            k <= names.len(),
            names.len() > 0,
            !is_deny_list(names@),
            named_adapters(registry@, names@, k as int) == Ok::<_, PreprocError>(out@),
        decreases names.len() - k,
    {
        let mut j: usize = 0;
        let mut found: Option<usize> = None;
        while j < registry.len() && found.is_none()
            invariant
                j <= registry.len(),
                k < names.len(),
                match found {
                    Some(i) => find_adapter(registry@, names@[k as int]@, 0) == Some(i as int) && i
                        < registry.len(),
                    None => find_adapter(registry@, names@[k as int]@, 0) == find_adapter(
                        registry@,
                        names@[k as int]@,
                        j as int,
                    ),
                },
            decreases registry.len() - j + (if found is None { 1int } else { 0int }),
        {
            if registry[j].meta.name == names[k] {
                found = Some(j);
            } else {
                j += 1;
            }
        }
        match found {
            Some(i) => {
                out.push(&registry[i]);
            },
            None => {
                proof {
                    lemma_named_error_stays(registry@, names@, k + 1, names.len() as int);
                }
                return Err(PreprocError::UnknownAdapter(names[k].clone()));
            },
        }
        k += 1;
    }
    Ok(out)
}

} // verus!
