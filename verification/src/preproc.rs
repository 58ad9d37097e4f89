//! Preprocessing one file: choosing its adapter, running the adapters on
//! what they yield, and caching the result.

use vstd::prelude::*;
use vstd::slice::slice_subrange;
use vstd::string::{StrSliceExecFns, StringExecFns};
use vstd::utf8::encode_utf8;
use crate::adapters::postproc::{postprocessed_unit, PostprocPrefix};
use crate::adapters::{
    active_adapters, get_adapters_filtered, metas_of, AdaptError, AdaptInfo, AdapterEntry,
    AdapterMeta, FileAdapter,
};
use crate::cache_key::{cache_key_bytes, compute_cache_key, ModifiedTime};
use crate::config::RgaConfig;
use crate::error::PreprocError;
use crate::matching::{adapter_matcher, first_match, FastFileMatcher, FileMatcher, FileMeta};
use crate::preproc_cache::{CacheError, PreprocCache};
use crate::recurse::{concat_read_streams, concatenated};
use crate::text::{decimal, decimal_string, file_name, file_name_of};

verus! {

/// How many of a file's first bytes are looked at to tell its content type.
pub const PEEK_LEN: usize = 65536;

/// The content type that the built-in magic database gives for these bytes.
pub uninterp spec fn sniffed_mimetype(bytes: Seq<u8>) -> Seq<char>;

/// `tree_magic::from_u8`, built with its bundled database only: the
/// content type of a file that starts with `buf`. It always finds one, the
/// most general being that of any byte stream.
#[verifier::external_body]
fn sniff_mimetype(buf: &[u8]) -> (mime: String)
    ensures
        mime@ == sniffed_mimetype(buf@),
{
    tree_magic::from_u8(buf).to_string()
}

/// The bytes of a file that are looked at to tell its content type.
pub open spec fn peeked(inp: Seq<u8>) -> Seq<u8> {
    if inp.len() <= PEEK_LEN {
        inp
    } else {
        inp.subrange(0, PEEK_LEN as int)
    }
}

/// The content type to match on: sniffed in accurate mode, else none.
pub open spec fn mimetype_of(accurate: bool, inp: Seq<u8>) -> Option<Seq<char>> {
    if accurate {
        Some(sniffed_mimetype(peeked(inp)))
    } else {
        None
    }
}

/// The adapter for a file with this path hint and content: the first
/// active one that takes it, with the reason and the active list; none if
/// none takes it. The hint must have a final component.
pub open spec fn choose_adapter_spec<'a, A>(
    config: RgaConfig,
    registry: Seq<AdapterEntry<A>>,
    filepath_hint: Seq<char>,
    inp: Seq<u8>,
) -> Result<Option<(&'a AdapterEntry<A>, FileMatcher, Seq<&'a AdapterEntry<A>>)>, PreprocError> {
    match active_adapters(registry, config.adapters@) {
        Err(e) => Err(e),
        Ok(active) => match file_name_of(filepath_hint) {
            None => Err(PreprocError::EmptyFilename),
            Some(name) => match first_match(
                metas_of(active),
                config.accurate,
                name,
                mimetype_of(config.accurate, inp),
                0,
            ) {
                Some((i, reason)) => Ok(Some((active[i], reason, active))),
                None => Ok(None),
            },
        },
    }
}

/// Chooses the adapter for a file from its path hint and, in accurate
/// mode, from its first bytes, which are only looked at.
pub fn choose_adapter<'a, A>(
    config: &RgaConfig,
    registry: &'a Vec<AdapterEntry<A>>,
    filepath_hint: &str,
    inp: &Vec<u8>,
) -> (r: Result<Option<(&'a AdapterEntry<A>, FileMatcher, Vec<&'a AdapterEntry<A>>)>, PreprocError>)
    ensures
        match r {
            Ok(Some((entry, reason, active))) => choose_adapter_spec(
                *config,
                registry@,
                filepath_hint@,
                inp@,
            ) == Ok::<_, PreprocError>(Some((entry, reason, active@))),
            Ok(None) => choose_adapter_spec(*config, registry@, filepath_hint@, inp@) == Ok::<
                Option<(&AdapterEntry<A>, FileMatcher, Seq<&AdapterEntry<A>>)>,
                PreprocError,
            >(None),
            Err(e) => choose_adapter_spec(*config, registry@, filepath_hint@, inp@) == Err::<
                Option<(&AdapterEntry<A>, FileMatcher, Seq<&AdapterEntry<A>>)>,
                _,
            >(e),
        },
{
    let active = match get_adapters_filtered(registry, &config.adapters) {
        Ok(active) => active,
        Err(e) => {
            return Err(e);
        },
    };
    let filename = match file_name(filepath_hint) {
        Some(name) => name,
        None => {
            return Err(PreprocError::EmptyFilename);
        },
    };
    let mimetype = if config.accurate {
        let n = if inp.len() <= PEEK_LEN {
            inp.len()
        } else {
            PEEK_LEN
        };
        let buf = slice_subrange(inp.as_slice(), 0, n);
        assert(buf@ =~= peeked(inp@));
        Some(sniff_mimetype(buf))
    } else {
        None
    };
    let meta = FileMeta { mimetype, lossy_filename: filename };
    assert(meta.mimetype_view() == mimetype_of(config.accurate, inp@));
    match adapter_matcher(&active, config.accurate, &meta) {
        Some((i, reason)) => {
            let entry = active[i];
            Ok(Some((entry, reason, active)))
        },
        None => Ok(None),
    }
}

/// The adapter that is to run on a file.
pub enum Adapter<'a, A> {
    /// One of the registry.
    Registered(&'a AdapterEntry<A>),
    /// The stand-in that only puts the prefix before each line.
    PostprocPrefix,
}

/// What is to happen with a file.
pub enum Ret<'a, A> {
    /// This adapter is to run on it. With it come the reason for the
    /// choice and the adapters that were active when it was made.
    Recurse(AdaptInfo, Adapter<'a, A>, FileMatcher, Vec<&'a AdapterEntry<A>>),
    /// It is handed on as it is.
    Passthrough(AdaptInfo),
}

/// Whether a file that no adapter takes may be handed on as it is: inside
/// an archive always, on disk only in accurate mode.
pub open spec fn passthrough_allowed(config: RgaConfig, ai: AdaptInfo) -> bool {
    !ai.is_real_file || config.accurate
}

/// The reason given where the stand-in adapter is chosen.
pub open spec fn is_default_reason(reason: FileMatcher) -> bool {
    reason matches FileMatcher::Fast(FastFileMatcher::FileExtension(ext)) && ext@ == "default"@
}

/// Whether `r` is what is to happen with `ai`.
/// - An adapter takes it: that adapter runs.
/// - None does, it may be handed on, and its lines still want their prefix:
///   the stand-in runs.
/// - None does, it may be handed on, nothing is wanted: it is handed on.
/// - None does and it may not be handed on: an error.
pub open spec fn dispatched<'a, A>(
    config: RgaConfig,
    registry: Seq<AdapterEntry<A>>,
    ai: AdaptInfo,
    r: Result<Ret<'a, A>, PreprocError>,
) -> bool {
    match choose_adapter_spec(config, registry, ai.filepath_hint@, ai.inp@) {
        Err(e) => r matches Err(e2) && e2 == e,
        Ok(Some((entry, reason, active))) => r matches Ok(
            Ret::Recurse(ai2, Adapter::Registered(entry2), reason2, active2),
        ) && ai2 == ai && entry2 == entry && reason2 == reason && active2@ == active,
        Ok(None) => if passthrough_allowed(config, ai) {
            if ai.postprocess {
                r matches Ok(Ret::Recurse(ai2, Adapter::PostprocPrefix, reason2, active2)) && ai2
                    == ai && is_default_reason(reason2) && active2@.len() == 0
            } else {
                r matches Ok(Ret::Passthrough(ai2)) && ai2 == ai
            }
        } else {
            r matches Err(PreprocError::NoAdapterFound(path)) && path == ai.filepath_hint
        },
    }
}

/// Decides what is to happen with a file.
pub fn buf_choose_adapter<'a, A>(
    config: &RgaConfig,
    registry: &'a Vec<AdapterEntry<A>>,
    ai: AdaptInfo,
) -> (r: Result<Ret<'a, A>, PreprocError>)
    ensures
        dispatched(*config, registry@, ai, r),
{
    let adapter = match choose_adapter(config, registry, ai.filepath_hint.as_str(), &ai.inp) {
        Ok(adapter) => adapter,
        Err(e) => {
            return Err(e);
        },
    };
    match adapter {
        Some((entry, reason, active)) => Ok(
            Ret::Recurse(ai, Adapter::Registered(entry), reason, active),
        ),
        None => {
            let allow_cat = !ai.is_real_file || config.accurate;
            if allow_cat {
                if ai.postprocess {
                    Ok(
                        Ret::Recurse(
                            ai,
                            Adapter::PostprocPrefix,
                            FileMatcher::Fast(
                                FastFileMatcher::FileExtension(String::from_str("default")),
                            ),
                            Vec::new(),
                        ),
                    )
                } else {
                    Ok(Ret::Passthrough(ai))
                }
            } else {
                Err(PreprocError::NoAdapterFound(ai.filepath_hint.clone()))
            }
        },
    }
}

/// The text that stands for a file whose adapter was not run because the
/// file lies too deep: its prefix, and in brackets the depth reached.
pub open spec fn recursion_marker(line_prefix: Seq<char>, depth: int) -> Seq<char> {
    line_prefix + "[rga: max archive recursion reached ("@ + decimal(depth) + ")]"@
}

/// Whether `out` is `ai` with the marker in place of its bytes.
pub open spec fn sealed_unit(ai: AdaptInfo, out: AdaptInfo) -> bool {
    &&& out.filepath_hint == ai.filepath_hint
    &&& out.is_real_file == ai.is_real_file
    &&& out.archive_recursion_depth == ai.archive_recursion_depth
    &&& out.line_prefix == ai.line_prefix
    &&& out.postprocess == ai.postprocess
    &&& out.inp@ == encode_utf8(
        recursion_marker(ai.line_prefix@, ai.archive_recursion_depth as int),
    )
}

/// Puts the marker in place of the file's bytes.
fn seal(ai: AdaptInfo) -> (out: AdaptInfo)
    ensures
        sealed_unit(ai, out),
{
    let depth = decimal_string(ai.archive_recursion_depth);
    let text = ai.line_prefix.clone().concat("[rga: max archive recursion reached (").concat(
        depth.as_str(),
    ).concat(")]");
    let s = text.as_str().as_bytes_vec();
    AdaptInfo {
        filepath_hint: ai.filepath_hint,
        is_real_file: ai.is_real_file,
        archive_recursion_depth: ai.archive_recursion_depth,
        inp: s,
        line_prefix: ai.line_prefix,
        postprocess: ai.postprocess,
    }
}

/// How many more levels of archives may be opened below `ai`.
pub open spec fn budget(config: RgaConfig, ai: AdaptInfo) -> int {
    if ai.archive_recursion_depth < config.max_archive_recursion {
        config.max_archive_recursion - ai.archive_recursion_depth
    } else {
        0
    }
}

/// 1 for the stand-in, which keeps a file at its depth; 0 for the others.
pub open spec fn rank<A>(adapter: Adapter<A>) -> int {
    match adapter {
        Adapter::PostprocPrefix => 1,
        Adapter::Registered(_) => 0,
    }
}

/// Whether running `adapter` on `ai` may give `yielded`: the files it
/// holds, or its failure with the file's path and the adapter's name.
pub open spec fn adapter_yields<A: FileAdapter>(
    adapter: Adapter<A>,
    detection_reason: FileMatcher,
    ai: AdaptInfo,
    yielded: Result<Seq<AdaptInfo>, PreprocError>,
) -> bool {
    match adapter {
        Adapter::PostprocPrefix => yielded matches Ok(units) && units.len() == 1
            && postprocessed_unit(ai, units[0]),
        Adapter::Registered(entry) => exists|res: Result<Vec<AdaptInfo>, AdaptError>|
            #![trigger call_ensures(A::adapt, (&entry.adapter, ai, &detection_reason), res)]
            call_ensures(A::adapt, (&entry.adapter, ai, &detection_reason), res)
                && match res {
                Ok(units) => yielded == Ok::<_, PreprocError>(units@),
                Err(cause) => yielded == Err::<Seq<AdaptInfo>, _>(
                    PreprocError::AdapterFailed {
                        path: ai.filepath_hint,
                        adapter: entry.meta.name,
                        cause,
                    },
                ),
            },
    }
}

/// Whether `leaves` may come of running `adapter` on `ai` and the chosen
/// adapters on all that they yield, in turn, down to the depth limit. The
/// leaves stand in the order in which the adapters yield them, those below a
/// file in its place. The first failure on the way is the result.
pub open spec fn expands_to<A: FileAdapter>(
    config: RgaConfig,
    registry: Seq<AdapterEntry<A>>,
    adapter: Adapter<A>,
    detection_reason: FileMatcher,
    ai: AdaptInfo,
    leaves: Result<Seq<AdaptInfo>, PreprocError>,
) -> bool
    decreases budget(config, ai), rank(adapter), 2int, 0int,
{
    exists|yielded: Result<Seq<AdaptInfo>, PreprocError>|
        #![trigger adapter_yields(adapter, detection_reason, ai, yielded)]
        adapter_yields(adapter, detection_reason, ai, yielded) && match yielded {
            Err(e) => leaves == Err::<Seq<AdaptInfo>, _>(e),
            Ok(units) => children_expand_to(config, registry, adapter, ai, units, leaves),
        }
}

/// Holds of every result; names one to the solver.
pub open spec fn candidate(leaves: Result<Seq<AdaptInfo>, PreprocError>) -> bool {
    true
}

/// Whether `leaves` may come of the files `units`, which `adapter` yielded
/// on `parent`: the leaves of each, one after the other, or the first
/// failure.
pub open spec fn children_expand_to<A: FileAdapter>(
    config: RgaConfig,
    registry: Seq<AdapterEntry<A>>,
    adapter: Adapter<A>,
    parent: AdaptInfo,
    units: Seq<AdaptInfo>,
    leaves: Result<Seq<AdaptInfo>, PreprocError>,
) -> bool
    decreases budget(config, parent), rank(adapter), 1int, units.len(),
{
    if units.len() == 0 {
        leaves == Ok::<_, PreprocError>(Seq::<AdaptInfo>::empty())
    } else {
        exists|before: Result<Seq<AdaptInfo>, PreprocError>|
            #![trigger candidate(before)]
            candidate(before) && children_expand_to(
                config,
                registry,
                adapter,
                parent,
                units.drop_last(),
                before,
            ) && match before {
                Err(e) => leaves == Err::<Seq<AdaptInfo>, _>(e),
                Ok(a) => exists|last: Result<Seq<AdaptInfo>, PreprocError>|
                    #![trigger candidate(last)]
                    candidate(last) && child_expands_to(
                        config,
                        registry,
                        adapter,
                        parent,
                        units.last(),
                        last,
                    ) && match last {
                        Err(e) => leaves == Err::<Seq<AdaptInfo>, _>(e),
                        Ok(b) => leaves == Ok::<_, PreprocError>(a + b),
                    },
            }
    }
}

/// Whether a file that `adapter` yielded on `parent` lies below it: one
/// level deeper, or, after the stand-in, at the same depth with nothing left
/// to postprocess.
pub open spec fn lies_below<A>(adapter: Adapter<A>, parent: AdaptInfo, unit: AdaptInfo) -> bool {
    match adapter {
        Adapter::Registered(_) => unit.archive_recursion_depth == parent.archive_recursion_depth
            + 1,
        Adapter::PostprocPrefix => unit.archive_recursion_depth
            == parent.archive_recursion_depth && !unit.postprocess,
    }
}

/// Whether `leaves` may come of one yielded file.
/// - No adapter takes it: the file itself.
/// - One does, and the file lies at the depth limit or deeper: the file
///   with the marker in place of its bytes.
/// - One does, above the limit: what comes of running it.
/// - The choice fails: that failure.
pub open spec fn child_expands_to<A: FileAdapter>(
    config: RgaConfig,
    registry: Seq<AdapterEntry<A>>,
    adapter: Adapter<A>,
    parent: AdaptInfo,
    unit: AdaptInfo,
    leaves: Result<Seq<AdaptInfo>, PreprocError>,
) -> bool
    decreases budget(config, parent), rank(adapter), 0int, 0int,
{
    exists|d: Result<Ret<A>, PreprocError>|
        #![trigger dispatched(config, registry, unit, d)]
        dispatched(config, registry, unit, d) && match d {
            Err(e) => leaves == Err::<Seq<AdaptInfo>, _>(e),
            Ok(Ret::Passthrough(u)) => leaves == Ok::<_, PreprocError>(seq![u]),
            Ok(Ret::Recurse(u, chosen, reason, _)) => if u.archive_recursion_depth
                >= config.max_archive_recursion {
                leaves matches Ok(l) && l.len() == 1 && sealed_unit(u, l[0])
            } else {
                lies_below(adapter, parent, unit) && (chosen is PostprocPrefix ==> u.postprocess)
                    && u == unit && expands_to(config, registry, chosen, reason, u, leaves)
            },
        }
}

/// The leaves as a sequence.
pub open spec fn leaves_of(r: Result<Vec<AdaptInfo>, PreprocError>) -> Result<
    Seq<AdaptInfo>,
    PreprocError,
> {
    match r {
        Ok(v) => Ok(v@),
        Err(e) => Err(e),
    }
}

/// A failure among the first of the yielded files is the failure of all.
proof fn lemma_children_failure_stays<A: FileAdapter>(
    config: RgaConfig,
    registry: Seq<AdapterEntry<A>>,
    adapter: Adapter<A>,
    parent: AdaptInfo,
    units: Seq<AdaptInfo>,
    upto: int,
    e: PreprocError,
)
    requires
        0 <= upto <= units.len(),
        children_expand_to(config, registry, adapter, parent, units.take(upto), Err(e)),
    ensures
        children_expand_to(config, registry, adapter, parent, units, Err(e)),
    decreases units.len() - upto,
{
    if upto == units.len() {
        assert(units.take(upto) =~= units);
    } else {
        assert(units.take(upto + 1).drop_last() =~= units.take(upto));
        assert(candidate(Err(e)));
        lemma_children_failure_stays(config, registry, adapter, parent, units, upto + 1, e);
    }
}

/// Runs `adapter` on `ai`, and on each file that it yields the adapter
/// chosen for that file, and so on, down to the depth limit. Returns the
/// leaves in the order in which they were met, or the first failure.
pub fn loop_adapt<'a, A: FileAdapter>(
    config: &RgaConfig,
    registry: &'a Vec<AdapterEntry<A>>,
    adapter: &Adapter<'a, A>,
    detection_reason: FileMatcher,
    ai: AdaptInfo,
) -> (r: Result<Vec<AdaptInfo>, PreprocError>)
    requires
        ai.archive_recursion_depth < i32::MAX,
    ensures
        expands_to(*config, registry@, *adapter, detection_reason, ai, leaves_of(r)),
    decreases budget(*config, ai), rank(*adapter),
{
    let units: Vec<AdaptInfo> = match adapter {
        Adapter::PostprocPrefix => PostprocPrefix::new().adapt(ai),
        Adapter::Registered(entry) => {
            let fph = ai.filepath_hint.clone();
            match entry.adapter.adapt(ai, &detection_reason) {
                Ok(units) => units,
                Err(cause) => {
                    let e = PreprocError::AdapterFailed {
                        path: fph,
                        adapter: entry.meta.name.clone(),
                        cause,
                    };
                    assert(adapter_yields(
                        *adapter,
                        detection_reason,
                        ai,
                        Err::<Seq<AdaptInfo>, _>(e),
                    ));
                    return Err(e);
                },
            }
        },
    };
    let ghost all = units@;
    assert(adapter_yields(*adapter, detection_reason, ai, Ok::<_, PreprocError>(all)));
    assert(forall|j: int| 0 <= j < all.len() ==> lies_below(*adapter, ai, #[trigger] all[j]));
    let mut out: Vec<AdaptInfo> = Vec::new();
    assert(all.take(0) =~= Seq::<AdaptInfo>::empty());
    for unit in it: units
        invariant
            it.seq() == all,
            ai.archive_recursion_depth < i32::MAX,
            adapter_yields(*adapter, detection_reason, ai, Ok::<_, PreprocError>(all)),
            forall|j: int| 0 <= j < all.len() ==> lies_below(*adapter, ai, #[trigger] all[j]),
            children_expand_to(
                *config,
                registry@,
                *adapter,
                ai,
                all.take(it.index() as int),
                Ok::<_, PreprocError>(out@),
            ),
    {
        let ghost i = it.index() as int;
        assert(unit == all[i]);
        assert(all.take(i + 1).drop_last() =~= all.take(i));
        assert(all.take(i + 1).last() == unit);
        let ghost before = out@;
        assert(candidate(Ok(before)));
        let d = buf_choose_adapter(config, registry, unit);
        match d {
            Err(e) => {
                proof {
                    assert(candidate(Err(e)));
                    assert(child_expands_to(
                        *config,
                        registry@,
                        *adapter,
                        ai,
                        unit,
                        Err::<Seq<AdaptInfo>, _>(e),
                    ));
                    assert(children_expand_to(
                        *config,
                        registry@,
                        *adapter,
                        ai,
                        all.take(i + 1),
                        Err::<Seq<AdaptInfo>, _>(e),
                    ));
                    lemma_children_failure_stays(*config, registry@, *adapter, ai, all, i + 1, e);
                }
                return Err(e);
            },
            Ok(Ret::Passthrough(u)) => {
                out.push(u);
                proof {
                    assert(candidate(Ok(seq![u])));
                    assert(child_expands_to(
                        *config,
                        registry@,
                        *adapter,
                        ai,
                        unit,
                        Ok::<_, PreprocError>(seq![u]),
                    ));
                    assert(out@ =~= before + seq![u]);
                }
            },
            Ok(Ret::Recurse(u, chosen, reason, _active)) => {
                if u.archive_recursion_depth >= config.max_archive_recursion {
                    let sealed = seal(u);
                    out.push(sealed);
                    proof {
                        assert(candidate(Ok(seq![sealed])));
                        assert(seq![sealed][0] == sealed);
                        assert(child_expands_to(
                            *config,
                            registry@,
                            *adapter,
                            ai,
                            unit,
                            Ok::<_, PreprocError>(seq![sealed]),
                        ));
                        assert(out@ =~= before + seq![sealed]);
                    }
                } else {
                    assert(u == unit);
                    assert(lies_below(*adapter, ai, unit));
                    match loop_adapt(config, registry, &chosen, reason, u) {
                        Ok(mut sub) => {
                            let ghost below = sub@;
                            out.append(&mut sub);
                            proof {
                                assert(candidate(Ok(below)));
                                assert(child_expands_to(
                                    *config,
                                    registry@,
                                    *adapter,
                                    ai,
                                    unit,
                                    Ok::<_, PreprocError>(below),
                                ));
                                assert(out@ =~= before + below);
                            }
                        },
                        Err(e) => {
                            proof {
                                assert(candidate(Err(e)));
                                assert(child_expands_to(
                                    *config,
                                    registry@,
                                    *adapter,
                                    ai,
                                    unit,
                                    Err::<Seq<AdaptInfo>, _>(e),
                                ));
                                assert(children_expand_to(
                                    *config,
                                    registry@,
                                    *adapter,
                                    ai,
                                    all.take(i + 1),
                                    Err::<Seq<AdaptInfo>, _>(e),
                                ));
                                lemma_children_failure_stays(
                                    *config,
                                    registry@,
                                    *adapter,
                                    ai,
                                    all,
                                    i + 1,
                                    e,
                                );
                            }
                            return Err(e);
                        },
                    }
                }
            },
        }
        assert(children_expand_to(
            *config,
            registry@,
            *adapter,
            ai,
            all.take(i + 1),
            Ok::<_, PreprocError>(out@),
        ));
    }
    assert(all.take(all.len() as int) =~= all);
    Ok(out)
}

/// What became of storing fresh output in the cache.
#[derive(Debug)]
pub enum Commit {
    /// Nothing was stored: no cache was in use, the output came from it, or
    /// the output was too long.
    NotTried,
    Stored,
    /// The cache failed to take the output. The output itself is whole.
    Failed(CacheError),
}

/// The outcome of preprocessing one file.
#[derive(Debug)]
pub struct Preprocessed {
    /// The plain bytes of the file and of all that it holds.
    pub bytes: Vec<u8>,
    /// Whether the bytes were found in the cache, and no adapter ran.
    pub from_cache: bool,
    pub commit: Commit,
}

/// The name of the adapter.
pub open spec fn adapter_name<A>(adapter: Adapter<A>) -> Seq<char> {
    match adapter {
        Adapter::Registered(entry) => entry.meta.name@,
        Adapter::PostprocPrefix => "postprocprefix"@,
    }
}

/// The version of the adapter.
pub open spec fn adapter_version<A>(adapter: Adapter<A>) -> i32 {
    match adapter {
        Adapter::Registered(entry) => entry.meta.version,
        Adapter::PostprocPrefix => 1,
    }
}

/// Whether what the adapter yields may need adapters itself.
pub open spec fn adapter_recurses<A>(adapter: Adapter<A>) -> bool {
    match adapter {
        Adapter::Registered(entry) => entry.meta.recurses,
        Adapter::PostprocPrefix => false,
    }
}

/// The cache partition of an adapter: its name, `.v`, and its version in
/// decimal.
pub open spec fn cache_partition(name: Seq<char>, version: i32) -> Seq<char> {
    name + ".v"@ + decimal(version as int)
}

/// The partition in which the output of `adapter` is cached.
pub open spec fn partition_of<A>(adapter: Adapter<A>) -> Seq<char> {
    cache_partition(adapter_name(adapter), adapter_version(adapter))
}

/// The key under which the output for `ai` is cached.
pub open spec fn key_of<A>(
    ai: AdaptInfo,
    modified: ModifiedTime,
    adapter: Adapter<A>,
    active_adapters: Seq<&AdapterEntry<A>>,
) -> Seq<u8> {
    cache_key_bytes(
        ai.filepath_hint@,
        modified,
        adapter_name(adapter),
        adapter_version(adapter),
        adapter_recurses(adapter),
        metas_of(active_adapters),
    )
}

/// Whether the cache is used for `ai`: only for a file on disk, with the
/// cache not switched off, and with the file's time at hand.
pub open spec fn caching_applies(
    config: RgaConfig,
    ai: AdaptInfo,
    modified: Option<ModifiedTime>,
) -> bool {
    ai.is_real_file && !config.cache.disabled && modified is Some
}

/// Whether `out` may come of running the adapters on `ai` and joining the
/// leaves.
pub open spec fn runs_to<A: FileAdapter>(
    config: RgaConfig,
    registry: Seq<AdapterEntry<A>>,
    adapter: Adapter<A>,
    detection_reason: FileMatcher,
    ai: AdaptInfo,
    out: Result<Seq<u8>, PreprocError>,
) -> bool {
    exists|leaves: Result<Seq<AdaptInfo>, PreprocError>|
        #![trigger expands_to(config, registry, adapter, detection_reason, ai, leaves)]
        expands_to(config, registry, adapter, detection_reason, ai, leaves) && match leaves {
            Err(e) => out == Err::<Seq<u8>, _>(e),
            Ok(l) => out == Ok::<_, PreprocError>(concatenated(l)),
        }
}

/// Whether `r` may be the outcome for `ai`, where `looked` is what the
/// cache answered, if it was asked.
/// - The cache is not used: it is not asked; the adapters run; nothing is
///   stored.
/// - The cache is used: it is always asked, and
///   - it fails to answer: that failure;
///   - it holds the output: that output, and no adapter runs;
///   - it holds nothing: the adapters run, and their output is stored if
///     it is no longer than the configured limit.
pub open spec fn executed<A: FileAdapter>(
    config: RgaConfig,
    registry: Seq<AdapterEntry<A>>,
    ai: AdaptInfo,
    adapter: Adapter<A>,
    detection_reason: FileMatcher,
    modified: Option<ModifiedTime>,
    looked: Option<Result<Option<Vec<u8>>, CacheError>>,
    r: Result<Preprocessed, PreprocError>,
) -> bool {
    if !caching_applies(config, ai, modified) {
        looked is None && exists|out: Result<Seq<u8>, PreprocError>|
            #![trigger runs_to(config, registry, adapter, detection_reason, ai, out)]
            runs_to(config, registry, adapter, detection_reason, ai, out) && match out {
                Err(e) => r matches Err(e2) && e2 == e,
                Ok(bytes) => r matches Ok(p) && p.bytes@ == bytes && !p.from_cache
                    && p.commit is NotTried,
            }
    } else {
        match looked {
            None => false,
            Some(Err(e)) => r matches Err(PreprocError::Cache(e2)) && e2 == e,
            Some(Ok(Some(cached))) => r matches Ok(p) && p.bytes == cached && p.from_cache
                && p.commit is NotTried,
            Some(Ok(None)) => exists|out: Result<Seq<u8>, PreprocError>|
                #![trigger runs_to(config, registry, adapter, detection_reason, ai, out)]
                runs_to(config, registry, adapter, detection_reason, ai, out) && match out {
                    Err(e) => r matches Err(e2) && e2 == e,
                    Ok(bytes) => r matches Ok(p) && p.bytes@ == bytes && !p.from_cache && (
                    p.commit is NotTried <==> bytes.len() > config.cache.max_blob_len),
                },
        }
    }
}

/// Whether `commit` tells what the cache answered to storing.
pub open spec fn commit_tells(commit: Commit, stored: Result<(), CacheError>) -> bool {
    match stored {
        Ok(_) => commit is Stored,
        Err(e) => commit == Commit::Failed(e),
    }
}

/// Whether `r` tells of an attempt to store output.
pub open spec fn commit_tried(r: Result<Preprocessed, PreprocError>) -> bool {
    r matches Ok(p) && !(p.commit is NotTried)
}

/// Where one adapter's output for one file lies in the cache.
fn address_for<A>(
    meta: &AdapterMeta,
    filepath_hint: &str,
    modified: &ModifiedTime,
    active_adapters: &Vec<&AdapterEntry<A>>,
) -> (r: Result<(String, Vec<u8>), PreprocError>)
    ensures
        r matches Ok((db_name, key)) && db_name@ == cache_partition(meta.name@, meta.version)
            && key@ == cache_key_bytes(
            filepath_hint@,
            *modified,
            meta.name@,
            meta.version,
            meta.recurses,
            metas_of(active_adapters@),
        ),
{
    let version = decimal_string(meta.version);
    let db_name = meta.name.clone().concat(".v").concat(version.as_str());
    match compute_cache_key(filepath_hint, modified, meta, active_adapters) {
        Ok(key) => Ok((db_name, key)),
        Err(e) => Err(e),
    }
}

/// Where the output of `adapter` for `ai` lies in the cache.
fn cache_address<'a, A>(
    adapter: &Adapter<'a, A>,
    ai: &AdaptInfo,
    modified: &ModifiedTime,
    active_adapters: &Vec<&'a AdapterEntry<A>>,
) -> (r: Result<(String, Vec<u8>), PreprocError>)
    ensures
        r matches Ok((db_name, key)) && db_name@ == partition_of(*adapter) && key@ == key_of(
            *ai,
            *modified,
            *adapter,
            active_adapters@,
        ),
{
    match adapter {
        Adapter::Registered(entry) => address_for(
            &entry.meta,
            ai.filepath_hint.as_str(),
            modified,
            active_adapters,
        ),
        Adapter::PostprocPrefix => {
            let meta = PostprocPrefix::new().metadata();
            address_for(&meta, ai.filepath_hint.as_str(), modified, active_adapters)
        },
    }
}

/// Runs the adapters on `ai` and joins the leaves.
fn run_fresh<'a, A: FileAdapter>(
    config: &RgaConfig,
    registry: &'a Vec<AdapterEntry<A>>,
    adapter: &Adapter<'a, A>,
    detection_reason: FileMatcher,
    ai: AdaptInfo,
) -> (r: Result<Vec<u8>, PreprocError>)
    requires
        ai.archive_recursion_depth < i32::MAX,
    ensures
        match r {
            Ok(bytes) => runs_to(
                *config,
                registry@,
                *adapter,
                detection_reason,
                ai,
                Ok::<_, PreprocError>(bytes@),
            ),
            Err(e) => runs_to(
                *config,
                registry@,
                *adapter,
                detection_reason,
                ai,
                Err::<Seq<u8>, _>(e),
            ),
        },
{
    match loop_adapt(config, registry, adapter, detection_reason, ai) {
        Ok(leaves) => Ok(concat_read_streams(&leaves)),
        Err(e) => Err(e),
    }
}

/// Preprocesses `ai` with `adapter`, through the cache where it applies.
/// `modified` is the time at which the file on disk was last modified; the
/// cache is used only where it is given.
pub fn adapt_caching<'a, A: FileAdapter, C: PreprocCache>(
    config: &RgaConfig,
    registry: &'a Vec<AdapterEntry<A>>,
    ai: AdaptInfo,
    adapter: Adapter<'a, A>,
    detection_reason: FileMatcher,
    active_adapters: Vec<&'a AdapterEntry<A>>,
    cache: &mut C,
    modified: Option<ModifiedTime>,
) -> (r: Result<Preprocessed, PreprocError>)
    requires
        ai.archive_recursion_depth < i32::MAX,
    ensures
        exists|looked: Option<Result<Option<Vec<u8>>, CacheError>>|
            #![trigger executed(*config, registry@, ai, adapter, detection_reason, modified, looked, r)]
            executed(*config, registry@, ai, adapter, detection_reason, modified, looked, r) && (
            looked matches Some(answer) ==> exists|db_name: &str, key: &[u8]|
                #![trigger call_ensures(C::get, (&*old(cache), db_name, key), answer)]
                db_name@ == partition_of(adapter) && key@ == key_of(
                    ai,
                    modified->0,
                    adapter,
                    active_adapters@,
                ) && call_ensures(C::get, (&*old(cache), db_name, key), answer)),
        !commit_tried(r) ==> *final(cache) == *old(cache),
        commit_tried(r) ==> exists|
            store: &mut C,
            db_name: &str,
            key: &[u8],
            value: &[u8],
            stored: Result<(), CacheError>,
        |
            #![trigger call_ensures(C::set, (store, db_name, key, value), stored)]
            *store == *old(cache) && *final(store) == *final(cache) && db_name@ == partition_of(
                adapter,
            ) && key@ == key_of(ai, modified->0, adapter, active_adapters@) && value@
                == r->Ok_0.bytes@ && call_ensures(C::set, (store, db_name, key, value), stored)
                && commit_tells(r->Ok_0.commit, stored),
{
    let caching = ai.is_real_file && !config.cache.disabled;
    match modified {
        Some(modified) => if !caching {
            let r = match run_fresh(config, registry, &adapter, detection_reason, ai) {
                Ok(bytes) => Ok(Preprocessed { bytes, from_cache: false, commit: Commit::NotTried }),
                Err(e) => Err(e),
            };
            assert(executed(
                *config,
                registry@,
                ai,
                adapter,
                detection_reason,
                Some(modified),
                None,
                r,
            ));
            r
        } else {
            match cache_address(&adapter, &ai, &modified, &active_adapters) {
                Err(e) => Err(e),
                Ok((db_name, key)) => {
                    let answer = cache.get(db_name.as_str(), key.as_slice());
                    let ghost looked = Some(answer);
                    match answer {
                        Err(e) => {
                            let r = Err(PreprocError::Cache(e));
                            assert(executed(
                                *config,
                                registry@,
                                ai,
                                adapter,
                                detection_reason,
                                Some(modified),
                                looked,
                                r,
                            ));
                            r
                        },
                        Ok(Some(cached)) => {
                            let r = Ok(
                                Preprocessed {
                                    bytes: cached,
                                    from_cache: true,
                                    commit: Commit::NotTried,
                                },
                            );
                            assert(executed(
                                *config,
                                registry@,
                                ai,
                                adapter,
                                detection_reason,
                                Some(modified),
                                looked,
                                r,
                            ));
                            r
                        },
                        Ok(None) => {
                            match run_fresh(config, registry, &adapter, detection_reason, ai) {
                                Err(e) => {
                                    let r = Err(e);
                                    assert(executed(
                                        *config,
                                        registry@,
                                        ai,
                                        adapter,
                                        detection_reason,
                                        Some(modified),
                                        looked,
                                        r,
                                    ));
                                    r
                                },
                                Ok(bytes) => {
                                    if bytes.len() <= config.cache.max_blob_len {
                                        let stored = cache.set(
                                            db_name.as_str(),
                                            key.as_slice(),
                                            bytes.as_slice(),
                                        );
                                        let commit = match stored {
                                            Ok(()) => Commit::Stored,
                                            Err(e) => Commit::Failed(e),
                                        };
                                        assert(commit_tells(commit, stored));
                                        let r = Ok(
                                            Preprocessed { bytes, from_cache: false, commit },
                                        );
                                        assert(executed(
                                            *config,
                                            registry@,
                                            ai,
                                            adapter,
                                            detection_reason,
                                            Some(modified),
                                            looked,
                                            r,
                                        ));
                                        r
                                    } else {
                                        let r = Ok(
                                            Preprocessed {
                                                bytes,
                                                from_cache: false,
                                                commit: Commit::NotTried,
                                            },
                                        );
                                        assert(executed(
                                            *config,
                                            registry@,
                                            ai,
                                            adapter,
                                            detection_reason,
                                            Some(modified),
                                            looked,
                                            r,
                                        ));
                                        r
                                    }
                                },
                            }
                        },
                    }
                },
            }
        },
        None => {
            let r = match run_fresh(config, registry, &adapter, detection_reason, ai) {
                Ok(bytes) => Ok(Preprocessed { bytes, from_cache: false, commit: Commit::NotTried }),
                Err(e) => Err(e),
            };
            assert(executed(
                *config,
                registry@,
                ai,
                adapter,
                detection_reason,
                modified,
                None,
                r,
            ));
            r
        },
    }
}

/// Preprocesses one file: chooses its adapter and runs it through the
/// cache, or hands the file's bytes on where no adapter takes it. `modified`
/// is the time at which the file on disk was last modified; the cache is
/// used only where it is given.
pub fn rga_preproc<'a, A: FileAdapter, C: PreprocCache>(
    config: &RgaConfig,
    registry: &'a Vec<AdapterEntry<A>>,
    ai: AdaptInfo,
    cache: &mut C,
    modified: Option<ModifiedTime>,
) -> (r: Result<Preprocessed, PreprocError>)
    requires
        ai.archive_recursion_depth < i32::MAX,
    ensures
        (choose_adapter_spec(*config, registry@, ai.filepath_hint@, ai.inp@) matches Ok(None))
            && passthrough_allowed(*config, ai) && !ai.postprocess ==> (r matches Ok(p) && p.bytes
            == ai.inp && !p.from_cache && p.commit is NotTried) && *final(cache) == *old(cache),
        exists|d: Result<Ret<'a, A>, PreprocError>|
            #![trigger dispatched(*config, registry@, ai, d)]
            dispatched(*config, registry@, ai, d) && match d {
                Err(e) => (r matches Err(e2) && e2 == e) && *final(cache) == *old(cache),
                Ok(Ret::Passthrough(u)) => (r matches Ok(p) && p.bytes == ai.inp && !p.from_cache
                    && p.commit is NotTried) && *final(cache) == *old(cache),
                Ok(Ret::Recurse(u, adapter, reason, active)) => {
                    &&& exists|looked: Option<Result<Option<Vec<u8>>, CacheError>>|
                        #![trigger executed(*config, registry@, u, adapter, reason, modified, looked, r)]
                        executed(*config, registry@, u, adapter, reason, modified, looked, r) && (
                        looked matches Some(answer) ==> exists|db_name: &str, key: &[u8]|
                            #![trigger call_ensures(C::get, (&*old(cache), db_name, key), answer)]
                            db_name@ == partition_of(adapter) && key@ == key_of(
                                u,
                                modified->0,
                                adapter,
                                active@,
                            ) && call_ensures(C::get, (&*old(cache), db_name, key), answer))
                    &&& !commit_tried(r) ==> *final(cache) == *old(cache)
                    &&& commit_tried(r) ==> exists|
                        store: &mut C,
                        db_name: &str,
                        key: &[u8],
                        value: &[u8],
                        stored: Result<(), CacheError>,
                    |
                        #![trigger call_ensures(C::set, (store, db_name, key, value), stored)]
                        *store == *old(cache) && *final(store) == *final(cache) && db_name@
                            == partition_of(adapter) && key@ == key_of(
                            u,
                            modified->0,
                            adapter,
                            active@,
                        ) && value@ == r->Ok_0.bytes@ && call_ensures(
                            C::set,
                            (store, db_name, key, value),
                            stored,
                        ) && commit_tells(r->Ok_0.commit, stored)
                },
            },
{
    let d = buf_choose_adapter(config, registry, ai);
    match d {
        Err(e) => Err(e),
        Ok(Ret::Passthrough(u)) => Ok(
            Preprocessed { bytes: u.inp, from_cache: false, commit: Commit::NotTried },
        ),
        Ok(Ret::Recurse(u, adapter, detection_reason, active_adapters)) => adapt_caching(
            config,
            registry,
            u,
            adapter,
            detection_reason,
            active_adapters,
            cache,
            modified,
        ),
    }
}

} // verus!
