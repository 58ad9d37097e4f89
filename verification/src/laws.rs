//! What holds of preprocessing as a whole, proved from the contracts of the
//! functions.

use vstd::prelude::*;
use vstd::bytes::{
    lemma_auto_spec_u32_to_from_le_bytes, lemma_auto_spec_u64_to_from_le_bytes,
    spec_u32_from_le_bytes, spec_u32_to_le_bytes, spec_u64_to_le_bytes,
};
use crate::adapters::{AdaptInfo, AdapterEntry, AdapterMeta, FileAdapter};
use vstd::utf8::{encode_utf8, encode_utf8_decode_utf8};
use crate::cache_key::{
    cache_key_bytes, cleaned_path, encoded_adapter, encoded_adapters, encoded_len, encoded_str,
    encoded_time, encoded_version, identities, recursing_key_bytes, terminal_key_bytes,
    ModifiedTime,
};
use crate::config::RgaConfig;
use crate::error::PreprocError;
use crate::matching::FileMatcher;
use crate::preproc::{
    adapter_yields, budget, rank, cache_partition, candidate, child_expands_to, children_expand_to,
    choose_adapter_spec, dispatched, executed, expands_to, lies_below, passthrough_allowed,
    sealed_unit, Adapter, Preprocessed, Ret,
};
use crate::text::{decimal, decimal_nat, digit_char};

verus! {

/// The parts one after the other.
pub open spec fn joined(parts: Seq<Seq<AdaptInfo>>) -> Seq<AdaptInfo>
    decreases parts.len(),
{
    if parts.len() == 0 {
        Seq::empty()
    } else {
        joined(parts.drop_last()) + parts.last()
    }
}

/// The leaves of an archive are the leaves of its files, one file after
/// the other in the order in which the adapter yielded them, whatever lies
/// below each file: where file `i` comes to the leaves `parts[i]`, all of
/// them come to `parts[0]`, `parts[1]` and so on, joined.
pub proof fn leaves_follow_yield_order<A: FileAdapter>(
    config: RgaConfig,
    registry: Seq<AdapterEntry<A>>,
    adapter: Adapter<A>,
    parent: AdaptInfo,
    units: Seq<AdaptInfo>,
    parts: Seq<Seq<AdaptInfo>>,
)
    requires
        each_expands_to(config, registry, adapter, parent, units, parts),
    ensures
        children_expand_to(config, registry, adapter, parent, units, Ok(joined(parts))),
    decreases units.len(),
{
    if units.len() > 0 {
        leaves_follow_yield_order(
            config,
            registry,
            adapter,
            parent,
            units.drop_last(),
            parts.drop_last(),
        );
        assert(candidate(Ok(joined(parts.drop_last()))));
        assert(candidate(Ok(parts.last())));
        assert(units.last() == units[units.len() - 1]);
    }
}

/// Whether file `i` comes to the leaves `parts[i]`, for each of the files.
pub open spec fn each_expands_to<A: FileAdapter>(
    config: RgaConfig,
    registry: Seq<AdapterEntry<A>>,
    adapter: Adapter<A>,
    parent: AdaptInfo,
    units: Seq<AdaptInfo>,
    parts: Seq<Seq<AdaptInfo>>,
) -> bool {
    &&& parts.len() == units.len()
    &&& forall|i: int|
        0 <= i < units.len() ==> child_expands_to(
            config,
            registry,
            adapter,
            parent,
            #[trigger] units[i],
            Ok(parts[i]),
        )
}

/// Conversely, the leaves of an archive fall into one part for each of its
/// files, in the order of the files, each part being what that file comes to:
/// no leaf stands out of the order in which the files were yielded.
pub proof fn leaves_split_by_file<A: FileAdapter>(
    config: RgaConfig,
    registry: Seq<AdapterEntry<A>>,
    adapter: Adapter<A>,
    parent: AdaptInfo,
    units: Seq<AdaptInfo>,
    leaves: Seq<AdaptInfo>,
) -> (parts: Seq<Seq<AdaptInfo>>)
    requires
        children_expand_to(config, registry, adapter, parent, units, Ok(leaves)),
    ensures
        each_expands_to(config, registry, adapter, parent, units, parts),
        leaves == joined(parts),
    decreases units.len(),
{
    if units.len() == 0 {
        let parts = Seq::<Seq<AdaptInfo>>::empty();
        assert(leaves =~= joined(parts));
        parts
    } else {
        let whole: Result<Seq<AdaptInfo>, PreprocError> = Ok(leaves);
        let before = choose|before: Result<Seq<AdaptInfo>, PreprocError>|
            #![trigger candidate(before)]
            candidate(before) && children_expand_to(
                config,
                registry,
                adapter,
                parent,
                units.drop_last(),
                before,
            ) && match before {
                Err(e) => whole == Err::<Seq<AdaptInfo>, _>(e),
                Ok(a) => exists|last: Result<Seq<AdaptInfo>, PreprocError>|
                    #![trigger candidate(last)]
                    candidate(last) && child_expands_to(
                        config,
                        registry,
                        adapter,
                        parent,
                        units.last(),
                        last,
                    ) && match last {
                        Err(e) => whole == Err::<Seq<AdaptInfo>, _>(e),
                        Ok(b) => whole == Ok::<_, PreprocError>(a + b),
                    },
            };
        let a = before->Ok_0;
        let last = choose|last: Result<Seq<AdaptInfo>, PreprocError>|
            #![trigger candidate(last)]
            candidate(last) && child_expands_to(
                config,
                registry,
                adapter,
                parent,
                units.last(),
                last,
            ) && match last {
                Err(e) => whole == Err::<Seq<AdaptInfo>, _>(e),
                Ok(b) => whole == Ok::<_, PreprocError>(a + b),
            };
        let b = last->Ok_0;
        let head = leaves_split_by_file(config, registry, adapter, parent, units.drop_last(), a);
        let parts = head.push(b);
        assert(parts.drop_last() =~= head);
        assert(parts.last() == b);
        assert forall|i: int| 0 <= i < units.len() implies child_expands_to(
            config,
            registry,
            adapter,
            parent,
            #[trigger] units[i],
            Ok(parts[i]),
        ) by {
            if i < units.len() - 1 {
                assert(units.drop_last()[i] == units[i]);
                assert(parts[i] == head[i]);
            } else {
                assert(units[i] == units.last());
            }
        }
        parts
    }
}

/// Whether a file that `adapter` yielded on `parent` lies below it and is
/// shown behind its prefix.
pub open spec fn yielded_below<A>(adapter: Adapter<A>, parent: AdaptInfo, unit: AdaptInfo) -> bool {
    lies_below(adapter, parent, unit) && parent.line_prefix@.is_prefix_of(unit.line_prefix@)
}

/// Whether `leaf` may stand among the leaves of `adapter` run on `ai`: it
/// is shown behind the prefix of `ai`, it lies below `ai` (after the
/// stand-in: not above it), and no deeper than the depth limit, or than one
/// level below `ai` where `ai` lies at the limit or beyond already.
pub open spec fn leaf_below<A>(
    config: RgaConfig,
    adapter: Adapter<A>,
    ai: AdaptInfo,
    leaf: AdaptInfo,
) -> bool {
    &&& ai.line_prefix@.is_prefix_of(leaf.line_prefix@)
    &&& adapter is Registered ==> ai.archive_recursion_depth < leaf.archive_recursion_depth
    &&& ai.archive_recursion_depth <= leaf.archive_recursion_depth
    &&& leaf.archive_recursion_depth <= config.max_archive_recursion
        || leaf.archive_recursion_depth <= ai.archive_recursion_depth + 1
}

/// Whatever the adapters yield, every leaf keeps the prefix of the file that
/// the run began with at the start of its own, lies below that file, and
/// lies no deeper than the depth limit allows: prefixes only grow, and no
/// adapter runs at the limit or beyond, but for the one the run began with.
pub proof fn leaves_lie_below<A: FileAdapter>(
    config: RgaConfig,
    registry: Seq<AdapterEntry<A>>,
    adapter: Adapter<A>,
    detection_reason: FileMatcher,
    ai: AdaptInfo,
    leaves: Seq<AdaptInfo>,
)
    requires
        ai.archive_recursion_depth < i32::MAX,
        expands_to(config, registry, adapter, detection_reason, ai, Ok(leaves)),
    ensures
        forall|i: int| 0 <= i < leaves.len() ==> leaf_below(config, adapter, ai, #[trigger] leaves[i]),
    decreases budget(config, ai), rank(adapter), 2int, 0int,
{
    let whole: Result<Seq<AdaptInfo>, PreprocError> = Ok(leaves);
    let yielded = choose|yielded: Result<Seq<AdaptInfo>, PreprocError>|
        #![trigger adapter_yields(adapter, detection_reason, ai, yielded)]
        adapter_yields(adapter, detection_reason, ai, yielded) && match yielded {
            Err(e) => whole == Err::<Seq<AdaptInfo>, _>(e),
            Ok(units) => children_expand_to(config, registry, adapter, ai, units, whole),
        };
    let units = yielded->Ok_0;
    assert forall|j: int| 0 <= j < units.len() implies yielded_below(
        adapter,
        ai,
        #[trigger] units[j],
    ) by {
        match adapter {
            Adapter::PostprocPrefix => {
                assert(ai.line_prefix@.is_prefix_of(ai.line_prefix@));
            },
            Adapter::Registered(entry) => {},
        }
    }
    lemma_children_lie_below(config, registry, adapter, ai, units, leaves);
}

/// The leaves of files that lie below `parent` lie below it.
proof fn lemma_children_lie_below<A: FileAdapter>(
    config: RgaConfig,
    registry: Seq<AdapterEntry<A>>,
    adapter: Adapter<A>,
    parent: AdaptInfo,
    units: Seq<AdaptInfo>,
    leaves: Seq<AdaptInfo>,
)
    requires
        children_expand_to(config, registry, adapter, parent, units, Ok(leaves)),
        forall|j: int| 0 <= j < units.len() ==> yielded_below(adapter, parent, #[trigger] units[j]),
    ensures
        forall|i: int|
            0 <= i < leaves.len() ==> leaf_below(config, adapter, parent, #[trigger] leaves[i]),
    decreases budget(config, parent), rank(adapter), 1int, units.len(),
{
    if units.len() > 0 {
        let whole: Result<Seq<AdaptInfo>, PreprocError> = Ok(leaves);
        let before = choose|before: Result<Seq<AdaptInfo>, PreprocError>|
            #![trigger candidate(before)]
            candidate(before) && children_expand_to(
                config,
                registry,
                adapter,
                parent,
                units.drop_last(),
                before,
            ) && match before {
                Err(e) => whole == Err::<Seq<AdaptInfo>, _>(e),
                Ok(a) => exists|last: Result<Seq<AdaptInfo>, PreprocError>|
                    #![trigger candidate(last)]
                    candidate(last) && child_expands_to(
                        config,
                        registry,
                        adapter,
                        parent,
                        units.last(),
                        last,
                    ) && match last {
                        Err(e) => whole == Err::<Seq<AdaptInfo>, _>(e),
                        Ok(b) => whole == Ok::<_, PreprocError>(a + b),
                    },
            };
        let a = before->Ok_0;
        let last = choose|last: Result<Seq<AdaptInfo>, PreprocError>|
            #![trigger candidate(last)]
            candidate(last) && child_expands_to(
                config,
                registry,
                adapter,
                parent,
                units.last(),
                last,
            ) && match last {
                Err(e) => whole == Err::<Seq<AdaptInfo>, _>(e),
                Ok(b) => whole == Ok::<_, PreprocError>(a + b),
            };
        let b = last->Ok_0;
        assert forall|j: int| 0 <= j < units.drop_last().len() implies yielded_below(
            adapter,
            parent,
            #[trigger] units.drop_last()[j],
        ) by {
            assert(units.drop_last()[j] == units[j]);
        }
        lemma_children_lie_below(config, registry, adapter, parent, units.drop_last(), a);
        assert(yielded_below(adapter, parent, units[units.len() - 1]));
        lemma_child_lies_below(config, registry, adapter, parent, units.last(), b);
        assert forall|i: int| 0 <= i < leaves.len() implies leaf_below(
            config,
            adapter,
            parent,
            #[trigger] leaves[i],
        ) by {
            if i < a.len() {
                assert(leaves[i] == a[i]);
            } else {
                assert(leaves[i] == b[i - a.len()]);
            }
        }
    }
}

/// The leaves of a file that lies below `parent` lie below it.
proof fn lemma_child_lies_below<A: FileAdapter>(
    config: RgaConfig,
    registry: Seq<AdapterEntry<A>>,
    adapter: Adapter<A>,
    parent: AdaptInfo,
    unit: AdaptInfo,
    leaves: Seq<AdaptInfo>,
)
    requires
        child_expands_to(config, registry, adapter, parent, unit, Ok(leaves)),
        yielded_below(adapter, parent, unit),
    ensures
        forall|i: int|
            0 <= i < leaves.len() ==> leaf_below(config, adapter, parent, #[trigger] leaves[i]),
    decreases budget(config, parent), rank(adapter), 0int, 0int,
{
    let whole: Result<Seq<AdaptInfo>, PreprocError> = Ok(leaves);
    let d = choose|d: Result<Ret<A>, PreprocError>|
        #![trigger dispatched(config, registry, unit, d)]
        dispatched(config, registry, unit, d) && match d {
            Err(e) => whole == Err::<Seq<AdaptInfo>, _>(e),
            Ok(Ret::Passthrough(u)) => whole == Ok::<_, PreprocError>(seq![u]),
            Ok(Ret::Recurse(u, chosen, reason, _)) => if u.archive_recursion_depth
                >= config.max_archive_recursion {
                whole matches Ok(l) && l.len() == 1 && sealed_unit(u, l[0])
            } else {
                lies_below(adapter, parent, unit) && (chosen is PostprocPrefix ==> u.postprocess)
                    && u == unit && expands_to(config, registry, chosen, reason, u, whole)
            },
        };
    match d {
        Ok(Ret::Recurse(u, chosen, reason, _)) => {
            if u.archive_recursion_depth < config.max_archive_recursion {
                leaves_lie_below(config, registry, chosen, reason, u, leaves);
                assert forall|i: int| 0 <= i < leaves.len() implies leaf_below(
                    config,
                    adapter,
                    parent,
                    #[trigger] leaves[i],
                ) by {
                    assert(leaf_below(config, chosen, u, leaves[i]));
                    let top = parent.line_prefix@;
                    let mid = u.line_prefix@;
                    let low = leaves[i].line_prefix@;
                    assert(top =~= low.subrange(0, top.len() as int)) by {
                        assert(top =~= mid.subrange(0, top.len() as int));
                        assert(mid =~= low.subrange(0, mid.len() as int));
                    }
                }
            }
        },
        _ => {},
    }
}

/// Whether some adapter, a registered one or the stand-in, is chosen for
/// the file.
pub open spec fn adapter_is_chosen<A>(
    config: RgaConfig,
    registry: Seq<AdapterEntry<A>>,
    unit: AdaptInfo,
) -> bool {
    match choose_adapter_spec(config, registry, unit.filepath_hint@, unit.inp@) {
        Ok(Some(_)) => true,
        Ok(None) => passthrough_allowed(config, unit) && unit.postprocess,
        Err(_) => false,
    }
}

/// A yielded file for which an adapter is chosen, at the depth limit or
/// deeper, comes to exactly one leaf: the file itself with the marker, which
/// holds its prefix and its depth, in place of its bytes. No adapter runs on
/// it. What its siblings come to does not depend on it.
pub proof fn depth_limit_seals_branch<A: FileAdapter>(
    config: RgaConfig,
    registry: Seq<AdapterEntry<A>>,
    adapter: Adapter<A>,
    parent: AdaptInfo,
    unit: AdaptInfo,
    leaves: Result<Seq<AdaptInfo>, PreprocError>,
)
    requires
        adapter_is_chosen(config, registry, unit),
        unit.archive_recursion_depth >= config.max_archive_recursion,
        child_expands_to(config, registry, adapter, parent, unit, leaves),
    ensures
        leaves matches Ok(l) && l.len() == 1 && sealed_unit(unit, l[0]),
{
}

/// Among the files that an adapter yielded, one for which an adapter is
/// chosen at the depth limit or deeper gives exactly its one leaf with the
/// marker, in its place; every other file gives what it would give without
/// it.
pub proof fn sealed_branch_among_siblings<A: FileAdapter>(
    config: RgaConfig,
    registry: Seq<AdapterEntry<A>>,
    adapter: Adapter<A>,
    parent: AdaptInfo,
    units: Seq<AdaptInfo>,
    at: int,
    leaves: Seq<AdaptInfo>,
) -> (parts: Seq<Seq<AdaptInfo>>)
    requires
        0 <= at < units.len(),
        adapter_is_chosen(config, registry, units[at]),
        units[at].archive_recursion_depth >= config.max_archive_recursion,
        children_expand_to(config, registry, adapter, parent, units, Ok(leaves)),
    ensures
        each_expands_to(config, registry, adapter, parent, units, parts),
        leaves == joined(parts),
        parts[at].len() == 1,
        sealed_unit(units[at], parts[at][0]),
{
    let parts = leaves_split_by_file(config, registry, adapter, parent, units, leaves);
    depth_limit_seals_branch(config, registry, adapter, parent, units[at], Ok(parts[at]));
    parts
}

/// A file for which no adapter is chosen and which may be handed on is a
/// leaf as it is, at any depth.
pub proof fn unmatched_file_is_leaf<A: FileAdapter>(
    config: RgaConfig,
    registry: Seq<AdapterEntry<A>>,
    adapter: Adapter<A>,
    parent: AdaptInfo,
    unit: AdaptInfo,
    leaves: Result<Seq<AdaptInfo>, PreprocError>,
)
    requires
        choose_adapter_spec(config, registry, unit.filepath_hint@, unit.inp@) matches Ok(None),
        passthrough_allowed(config, unit),
        !unit.postprocess,
        child_expands_to(config, registry, adapter, parent, unit, leaves),
    ensures
        leaves == Ok::<_, PreprocError>(seq![unit]),
{
}

/// Two runs on the same file with the same adapters: where the first
/// found nothing in the cache and stored its output, and the cache answers
/// the second with what was stored, the second returns the same bytes, from
/// the cache, whatever the adapters would do.
pub proof fn cache_round_trip<A: FileAdapter>(
    config: RgaConfig,
    registry: Seq<AdapterEntry<A>>,
    ai: AdaptInfo,
    adapter: Adapter<A>,
    detection_reason: FileMatcher,
    modified: Option<ModifiedTime>,
    first: Result<Preprocessed, PreprocError>,
    cached: Vec<u8>,
    second: Result<Preprocessed, PreprocError>,
)
    requires
        executed(config, registry, ai, adapter, detection_reason, modified, Some(Ok(None)), first),
        first matches Ok(p) && p.commit is Stored,
        cached@ == first->Ok_0.bytes@,
        executed(
            config,
            registry,
            ai,
            adapter,
            detection_reason,
            modified,
            Some(Ok(Some(cached))),
            second,
        ),
    ensures
        second matches Ok(p) && p.bytes@ == first->Ok_0.bytes@ && p.from_cache
            && p.commit is NotTried,
{
}

/// Output longer than the configured limit is returned whole and never
/// stored, so the next run finds nothing again.
pub proof fn oversized_output_is_not_stored<A: FileAdapter>(
    config: RgaConfig,
    registry: Seq<AdapterEntry<A>>,
    ai: AdaptInfo,
    adapter: Adapter<A>,
    detection_reason: FileMatcher,
    modified: Option<ModifiedTime>,
    r: Result<Preprocessed, PreprocError>,
)
    requires
        executed(config, registry, ai, adapter, detection_reason, modified, Some(Ok(None)), r),
        r matches Ok(p) && p.bytes@.len() > config.cache.max_blob_len,
    ensures
        r->Ok_0.commit is NotTried,
{
}

/// Two times that differ are written differently.
proof fn lemma_encoded_time_injective(a: ModifiedTime, b: ModifiedTime)
    requires
        encoded_time(a) == encoded_time(b),
    ensures
        a == b,
{
    lemma_auto_spec_u64_to_from_le_bytes();
    lemma_auto_spec_u32_to_from_le_bytes();
    let a8 = spec_u64_to_le_bytes(a.secs_since_epoch);
    let b8 = spec_u64_to_le_bytes(b.secs_since_epoch);
    let a4 = spec_u32_to_le_bytes(a.nanos_since_epoch);
    let b4 = spec_u32_to_le_bytes(b.nanos_since_epoch);
    assert(a8 =~= encoded_time(a).subrange(0, 8));
    assert(b8 =~= encoded_time(b).subrange(0, 8));
    assert(a4 =~= encoded_time(a).subrange(8, 12));
    assert(b4 =~= encoded_time(b).subrange(8, 12));
}

/// A file that was modified again has another cache key: what was stored
/// for it before is not found under the new key.
pub proof fn modified_time_changes_key(
    filepath_hint: Seq<char>,
    before: ModifiedTime,
    after: ModifiedTime,
    name: Seq<char>,
    version: i32,
    recurses: bool,
    active: Seq<AdapterMeta>,
)
    requires
        before != after,
    ensures
        cache_key_bytes(filepath_hint, before, name, version, recurses, active) != cache_key_bytes(
            filepath_hint,
            after,
            name,
            version,
            recurses,
            active,
        ),
{
    let k1 = cache_key_bytes(filepath_hint, before, name, version, recurses, active);
    let k2 = cache_key_bytes(filepath_hint, after, name, version, recurses, active);
    lemma_auto_spec_u64_to_from_le_bytes();
    lemma_auto_spec_u32_to_from_le_bytes();
    if k1 == k2 {
        assert(encoded_time(before).len() == 12);
        assert(encoded_time(after).len() == 12);
        assert(encoded_time(before) =~= k1.subrange(k1.len() - 12, k1.len() as int));
        assert(encoded_time(after) =~= k2.subrange(k2.len() - 12, k2.len() as int));
        lemma_encoded_time_injective(before, after);
    }
}

/// Two joined pairs that are equal and whose first parts are equally long
/// are equal part by part.
proof fn lemma_split_equal(a1: Seq<u8>, b1: Seq<u8>, a2: Seq<u8>, b2: Seq<u8>)
    requires
        a1 + b1 == a2 + b2,
        a1.len() == a2.len(),
    ensures
        a1 == a2,
        b1 == b2,
{
    assert(a1 =~= (a1 + b1).subrange(0, a1.len() as int));
    assert(a2 =~= (a2 + b2).subrange(0, a2.len() as int));
    assert(b1 =~= (a1 + b1).subrange(a1.len() as int, (a1 + b1).len() as int));
    assert(b2 =~= (a2 + b2).subrange(a2.len() as int, (a2 + b2).len() as int));
}

/// Whether the UTF-8 form of the text is short enough for its length to be
/// written as a `u64`.
spec fn length_fits(s: Seq<char>) -> bool {
    encode_utf8(s).len() <= u64::MAX
}

/// A written text can be read back from the front of what holds it.
proof fn lemma_encoded_str_prefix(s1: Seq<char>, r1: Seq<u8>, s2: Seq<char>, r2: Seq<u8>)
    requires
        encoded_str(s1) + r1 == encoded_str(s2) + r2,
        length_fits(s1),
        length_fits(s2),
    ensures
        s1 == s2,
        r1 == r2,
{
    lemma_auto_spec_u64_to_from_le_bytes();
    let u1 = encode_utf8(s1);
    let u2 = encode_utf8(s2);
    let h1 = encoded_len(u1.len());
    let h2 = encoded_len(u2.len());
    assert(encoded_str(s1) + r1 =~= h1 + (u1 + r1));
    assert(encoded_str(s2) + r2 =~= h2 + (u2 + r2));
    lemma_split_equal(h1, u1 + r1, h2, u2 + r2);
    assert(u1.len() as u64 == u2.len() as u64);
    lemma_split_equal(u1, r1, u2, r2);
    encode_utf8_decode_utf8(s1);
    encode_utf8_decode_utf8(s2);
}

/// Two versions that are written the same are the same.
proof fn lemma_encoded_version_injective(v1: i32, v2: i32)
    requires
        encoded_version(v1) == encoded_version(v2),
    ensures
        v1 == v2,
{
    lemma_auto_spec_u32_to_from_le_bytes();
    let u1: u32 = if v1 >= 0 {
        v1 as u32
    } else {
        (v1 + 0x1_0000_0000) as u32
    };
    let u2: u32 = if v2 >= 0 {
        v2 as u32
    } else {
        (v2 + 0x1_0000_0000) as u32
    };
    assert(encoded_version(v1) == spec_u32_to_le_bytes(u1));
    assert(encoded_version(v2) == spec_u32_to_le_bytes(u2));
    assert(spec_u32_from_le_bytes(spec_u32_to_le_bytes(u1)) == u1);
    assert(spec_u32_from_le_bytes(spec_u32_to_le_bytes(u2)) == u2);
}

/// A written name and version can be read back from the front of what
/// holds them.
proof fn lemma_encoded_adapter_prefix(
    n1: Seq<char>,
    v1: i32,
    r1: Seq<u8>,
    n2: Seq<char>,
    v2: i32,
    r2: Seq<u8>,
)
    requires
        encoded_adapter(n1, v1) + r1 == encoded_adapter(n2, v2) + r2,
        length_fits(n1),
        length_fits(n2),
    ensures
        n1 == n2,
        v1 == v2,
        r1 == r2,
{
    lemma_auto_spec_u32_to_from_le_bytes();
    assert(encoded_adapter(n1, v1) + r1 =~= encoded_str(n1) + (encoded_version(v1) + r1));
    assert(encoded_adapter(n2, v2) + r2 =~= encoded_str(n2) + (encoded_version(v2) + r2));
    lemma_encoded_str_prefix(n1, encoded_version(v1) + r1, n2, encoded_version(v2) + r2);
    lemma_split_equal(encoded_version(v1), r1, encoded_version(v2), r2);
    lemma_encoded_version_injective(v1, v2);
}

/// The written list starts with its first name and version.
proof fn lemma_encoded_adapters_front(list: Seq<(Seq<char>, i32)>)
    requires
        list.len() > 0,
    ensures
        encoded_adapters(list) == encoded_adapter(list[0].0, list[0].1) + encoded_adapters(
            list.drop_first(),
        ),
    decreases list.len(),
{
    if list.len() == 1 {
        assert(list.drop_last() =~= Seq::<(Seq<char>, i32)>::empty());
        assert(list.drop_first() =~= Seq::<(Seq<char>, i32)>::empty());
        assert(encoded_adapters(list) =~= encoded_adapter(list[0].0, list[0].1)
            + encoded_adapters(list.drop_first()));
    } else {
        lemma_encoded_adapters_front(list.drop_last());
        assert(list.drop_last().drop_first() =~= list.drop_first().drop_last());
        assert(list.drop_last()[0] == list[0]);
        assert(list.drop_first().last() == list.last());
        assert(encoded_adapters(list) =~= encoded_adapter(list[0].0, list[0].1)
            + encoded_adapters(list.drop_first()));
    }
}

/// Whether the UTF-8 form of each name is short enough for its length to
/// be written as a `u64`.
spec fn names_fit(list: Seq<(Seq<char>, i32)>) -> bool {
    forall|i: int| 0 <= i < list.len() ==> length_fits(#[trigger] list[i].0)
}

/// Written lists of the same length can be read back from the front of
/// what holds them.
proof fn lemma_encoded_adapters_prefix(
    l1: Seq<(Seq<char>, i32)>,
    r1: Seq<u8>,
    l2: Seq<(Seq<char>, i32)>,
    r2: Seq<u8>,
)
    requires
        l1.len() == l2.len(),
        encoded_adapters(l1) + r1 == encoded_adapters(l2) + r2,
        names_fit(l1),
        names_fit(l2),
    ensures
        l1 == l2,
        r1 == r2,
    decreases l1.len(),
{
    if l1.len() == 0 {
        assert(encoded_adapters(l1) + r1 =~= r1);
        assert(encoded_adapters(l2) + r2 =~= r2);
        assert(l1 =~= l2);
    } else {
        lemma_encoded_adapters_front(l1);
        lemma_encoded_adapters_front(l2);
        let t1 = l1.drop_first();
        let t2 = l2.drop_first();
        assert(encoded_adapters(l1) + r1 =~= encoded_adapter(l1[0].0, l1[0].1) + (
        encoded_adapters(t1) + r1));
        assert(encoded_adapters(l2) + r2 =~= encoded_adapter(l2[0].0, l2[0].1) + (
        encoded_adapters(t2) + r2));
        lemma_encoded_adapter_prefix(
            l1[0].0,
            l1[0].1,
            encoded_adapters(t1) + r1,
            l2[0].0,
            l2[0].1,
            encoded_adapters(t2) + r2,
        );
        assert forall|i: int| 0 <= i < t1.len() implies length_fits(#[trigger] t1[i].0) by {
            assert(t1[i] == l1[i + 1]);
        }
        assert forall|i: int| 0 <= i < t2.len() implies length_fits(#[trigger] t2[i].0) by {
            assert(t2[i] == l2[i + 1]);
        }
        lemma_encoded_adapters_prefix(t1, r1, t2, r2);
        assert(l1 =~= seq![l1[0]] + t1);
        assert(l2 =~= seq![l2[0]] + t2);
    }
}

/// The written list is at least twelve bytes long for each adapter, and
/// holds the UTF-8 form of each name.
proof fn lemma_encoded_adapters_len(list: Seq<(Seq<char>, i32)>)
    ensures
        encoded_adapters(list).len() >= 12 * list.len(),
        forall|i: int|
            0 <= i < list.len() ==> encode_utf8(#[trigger] list[i].0).len() <= encoded_adapters(
                list,
            ).len(),
    decreases list.len(),
{
    lemma_auto_spec_u64_to_from_le_bytes();
    lemma_auto_spec_u32_to_from_le_bytes();
    if list.len() > 0 {
        lemma_encoded_adapters_len(list.drop_last());
        assert forall|i: int| 0 <= i < list.len() implies encode_utf8(#[trigger] list[i].0).len()
            <= encoded_adapters(list).len() by {
            if i < list.len() - 1 {
                assert(list.drop_last()[i] == list[i]);
            }
        }
    }
}

/// Two cache keys that were built, for adapters that both recurse or both
/// do not, are the same only if they agree in all that a key is made of: the
/// cleaned path, the time, and the names and versions of the active adapters
/// for a recursing adapter, or of the one adapter for another. A change in
/// any of these gives another key.
pub proof fn cache_key_tells_its_parts(
    recurses: bool,
    key1: Vec<u8>,
    hint1: Seq<char>,
    modified1: ModifiedTime,
    name1: Seq<char>,
    version1: i32,
    active1: Seq<AdapterMeta>,
    key2: Vec<u8>,
    hint2: Seq<char>,
    modified2: ModifiedTime,
    name2: Seq<char>,
    version2: i32,
    active2: Seq<AdapterMeta>,
)
    requires
        key1@ == cache_key_bytes(hint1, modified1, name1, version1, recurses, active1),
        key2@ == cache_key_bytes(hint2, modified2, name2, version2, recurses, active2),
        key1@ == key2@,
    ensures
        cleaned_path(hint1) == cleaned_path(hint2),
        modified1 == modified2,
        recurses ==> identities(active1) == identities(active2),
        !recurses ==> name1 == name2 && version1 == version2,
{
    lemma_auto_spec_u64_to_from_le_bytes();
    lemma_auto_spec_u32_to_from_le_bytes();
    assert(key1@.len() == key1.len());
    assert(key2@.len() == key2.len());
    let path1 = cleaned_path(hint1);
    let path2 = cleaned_path(hint2);
    let t1 = encoded_time(modified1);
    let t2 = encoded_time(modified2);
    if recurses {
        let l1 = identities(active1);
        let l2 = identities(active2);
        lemma_encoded_adapters_len(l1);
        lemma_encoded_adapters_len(l2);
        let rest1 = encoded_adapters(l1) + (encoded_str(path1) + t1);
        let rest2 = encoded_adapters(l2) + (encoded_str(path2) + t2);
        assert(key1@ =~= encoded_len(l1.len()) + rest1);
        assert(key2@ =~= encoded_len(l2.len()) + rest2);
        assert(length_fits(path1));
        assert(length_fits(path2));
        assert(names_fit(l1));
        assert(names_fit(l2));
        lemma_split_equal(encoded_len(l1.len()), rest1, encoded_len(l2.len()), rest2);
        assert(l1.len() as u64 == l2.len() as u64);
        lemma_encoded_adapters_prefix(l1, encoded_str(path1) + t1, l2, encoded_str(path2) + t2);
        lemma_encoded_str_prefix(path1, t1, path2, t2);
    } else {
        assert(key1@ =~= encoded_adapter(name1, version1) + (encoded_str(path1) + t1));
        assert(key2@ =~= encoded_adapter(name2, version2) + (encoded_str(path2) + t2));
        assert(length_fits(path1));
        assert(length_fits(path2));
        assert(length_fits(name1));
        assert(length_fits(name2));
        lemma_encoded_adapter_prefix(
            name1,
            version1,
            encoded_str(path1) + t1,
            name2,
            version2,
            encoded_str(path2) + t2,
        );
        lemma_encoded_str_prefix(path1, t1, path2, t2);
    }
    lemma_encoded_time_injective(modified1, modified2);
}

/// The key of a file for a recursing adapter is never the key of the same
/// file, last modified at the same time, for an adapter that does not
/// recurse.
pub proof fn key_shapes_differ(
    recursing: Vec<u8>,
    terminal: Vec<u8>,
    filepath_hint: Seq<char>,
    modified: ModifiedTime,
    active: Seq<AdapterMeta>,
    name: Seq<char>,
    version: i32,
)
    requires
        recursing@ == recursing_key_bytes(identities(active), cleaned_path(filepath_hint), modified),
        terminal@ == terminal_key_bytes(name, version, cleaned_path(filepath_hint), modified),
    ensures
        recursing@ != terminal@,
{
    lemma_auto_spec_u64_to_from_le_bytes();
    lemma_auto_spec_u32_to_from_le_bytes();
    assert(recursing@.len() == recursing.len());
    assert(terminal@.len() == terminal.len());
    let list = identities(active);
    lemma_encoded_adapters_len(list);
    let tail = encoded_str(cleaned_path(filepath_hint)) + encoded_time(modified);
    let rest1 = encoded_adapters(list) + tail;
    let rest2 = encode_utf8(name) + (encoded_version(version) + tail);
    assert(recursing@ =~= encoded_len(list.len()) + rest1);
    assert(terminal@ =~= encoded_len(encode_utf8(name).len()) + rest2);
    if recursing@ == terminal@ {
        lemma_split_equal(
            encoded_len(list.len()),
            rest1,
            encoded_len(encode_utf8(name).len()),
            rest2,
        );
        assert(list.len() as u64 == encode_utf8(name).len() as u64);
        assert(rest1.len() == rest2.len());
        if list.len() == 0 {
            assert(encoded_adapters(list).len() == 0);
        }
    }
}

/// A number's decimal form is never empty and holds no `-`.
proof fn lemma_decimal_nat_shape(n: nat)
    ensures
        decimal_nat(n).len() >= 1,
        n >= 10 ==> decimal_nat(n).len() >= 2,
        forall|i: int| 0 <= i < decimal_nat(n).len() ==> decimal_nat(n)[i] != '-',
    decreases n,
{
    if n >= 10 {
        lemma_decimal_nat_shape(n / 10);
    }
}

/// Two natural numbers with the same decimal form are the same.
proof fn lemma_decimal_nat_injective(a: nat, b: nat)
    requires
        decimal_nat(a) == decimal_nat(b),
    ensures
        a == b,
    decreases a,
{
    lemma_decimal_nat_shape(a);
    lemma_decimal_nat_shape(b);
    if a < 10 {
        assert(decimal_nat(a).len() == 1);
        assert(b < 10);
        assert(decimal_nat(a)[0] == digit_char(a as int));
        assert(decimal_nat(b)[0] == digit_char(b as int));
    } else {
        assert(b >= 10);
        let da = decimal_nat(a / 10);
        let db = decimal_nat(b / 10);
        assert(decimal_nat(a).last() == digit_char((a % 10) as int));
        assert(decimal_nat(b).last() == digit_char((b % 10) as int));
        assert(da =~= decimal_nat(a).drop_last());
        assert(db =~= decimal_nat(b).drop_last());
        lemma_decimal_nat_injective(a / 10, b / 10);
    }
}

/// Two integers with the same decimal form are the same.
pub proof fn decimal_is_injective(a: int, b: int)
    requires
        decimal(a) == decimal(b),
    ensures
        a == b,
{
    lemma_decimal_nat_shape(if a < 0 { (-a) as nat } else { a as nat });
    lemma_decimal_nat_shape(if b < 0 { (-b) as nat } else { b as nat });
    if a < 0 {
        assert(decimal(a)[0] == '-');
        if b >= 0 {
            assert(decimal(b)[0] != '-');
        }
        assert(decimal_nat((-a) as nat) =~= decimal(a).subrange(1, decimal(a).len() as int));
        assert(decimal_nat((-b) as nat) =~= decimal(b).subrange(1, decimal(b).len() as int));
        lemma_decimal_nat_injective((-a) as nat, (-b) as nat);
    } else {
        if b < 0 {
            assert(decimal(b)[0] == '-');
            assert(decimal(a)[0] != '-');
        }
        lemma_decimal_nat_injective(a as nat, b as nat);
    }
}

/// An adapter with a new version has another cache partition: nothing
/// that was stored under the old version is found again.
pub proof fn version_changes_partition(name: Seq<char>, old_version: i32, new_version: i32)
    requires
        old_version != new_version,
    ensures
        cache_partition(name, old_version) != cache_partition(name, new_version),
{
    let old_partition = cache_partition(name, old_version);
    let new_partition = cache_partition(name, new_version);
    if old_partition == new_partition {
        let head = name + ".v"@;
        assert(decimal(old_version as int) =~= old_partition.subrange(head.len() as int, old_partition.len() as int));
        assert(decimal(new_version as int) =~= new_partition.subrange(head.len() as int, new_partition.len() as int));
        decimal_is_injective(old_version as int, new_version as int);
    }
}

} // verus!
