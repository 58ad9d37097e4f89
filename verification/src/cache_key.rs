//! The key under which a file's preprocessed output is cached.

use vstd::prelude::*;
use vstd::bytes::{spec_u32_to_le_bytes, spec_u64_to_le_bytes};
use vstd::utf8::encode_utf8;
use crate::adapters::{metas_of, AdapterEntry, AdapterMeta};
use crate::error::PreprocError;

verus! {

/// When a file was last modified, as the time since 1970-01-01 00:00:00 UTC.
#[derive(Clone, Copy, Debug)]
pub struct ModifiedTime {
    pub secs_since_epoch: u64,
    pub nanos_since_epoch: u32,
}

/// The path with `.` and `..` elements and repeated slashes taken out, by
/// the rules of Plan 9's `cleanname`, looking at the text alone.
pub uninterp spec fn cleaned_path(path: Seq<char>) -> Seq<char>;

/// `path_clean::clean`: the shortest path that names the same place as
/// `path` by its text alone; no file system is asked.
#[verifier::external_body]
fn clean_path(path: &str) -> (cleaned: String)
    ensures
        cleaned@ == cleaned_path(path@),
{
    path_clean::clean(path)
}

/// A length, as eight bytes, lowest first.
pub open spec fn encoded_len(n: nat) -> Seq<u8> {
    spec_u64_to_le_bytes(n as u64)
}

/// A text: the length of its UTF-8 form, then that form.
pub open spec fn encoded_str(s: Seq<char>) -> Seq<u8> {
    encoded_len(encode_utf8(s).len()) + encode_utf8(s)
}

/// A version: four bytes, lowest first, in two's complement.
pub open spec fn encoded_version(v: i32) -> Seq<u8> {
    spec_u32_to_le_bytes(
        if v >= 0 {
            v as u32
        } else {
            (v + 0x1_0000_0000) as u32
        },
    )
}

/// An adapter's name and version.
pub open spec fn encoded_adapter(name: Seq<char>, version: i32) -> Seq<u8> {
    encoded_str(name) + encoded_version(version)
}

/// The names and versions one after the other.
pub open spec fn encoded_adapters(list: Seq<(Seq<char>, i32)>) -> Seq<u8>
    decreases list.len(),
{
    if list.len() == 0 {
        Seq::empty()
    } else {
        encoded_adapters(list.drop_last()) + encoded_adapter(list.last().0, list.last().1)
    }
}

/// A time: the seconds as eight bytes, the nanoseconds as four, lowest
/// first.
pub open spec fn encoded_time(modified: ModifiedTime) -> Seq<u8> {
    spec_u64_to_le_bytes(modified.secs_since_epoch) + spec_u32_to_le_bytes(
        modified.nanos_since_epoch,
    )
}

/// The key for a file that a recursing adapter takes: how many adapters
/// are active, their names and versions, the path, the time.
pub open spec fn recursing_key_bytes(
    adapters: Seq<(Seq<char>, i32)>,
    path: Seq<char>,
    modified: ModifiedTime,
) -> Seq<u8> {
    encoded_len(adapters.len()) + encoded_adapters(adapters) + encoded_str(path) + encoded_time(
        modified,
    )
}

/// The key for a file that another adapter takes: that adapter's name and
/// version, the path, the time.
pub open spec fn terminal_key_bytes(
    name: Seq<char>,
    version: i32,
    path: Seq<char>,
    modified: ModifiedTime,
) -> Seq<u8> {
    encoded_adapter(name, version) + encoded_str(path) + encoded_time(modified)
}

/// The names and versions as characters and numbers.
pub open spec fn names_and_versions(list: Seq<(String, i32)>) -> Seq<(Seq<char>, i32)> {
    list.map_values(|e: (String, i32)| (e.0@, e.1))
}

/// The names and versions of the adapters.
pub open spec fn identities(metas: Seq<AdapterMeta>) -> Seq<(Seq<char>, i32)> {
    metas.map_values(|m: AdapterMeta| (m.name@, m.version))
}

/// `bincode::ErrorKind`: why a value could not be written. It is only
/// carried from the call to where it is turned into this library's error.
#[verifier::external_type_specification]
#[verifier::external_body]
pub struct ExBincodeErrorKind(bincode::ErrorKind);

/// `bincode::serialize` on the key of a recursing adapter. In its default
/// configuration it writes integers at their fixed width, lowest byte first,
/// a length as a `u64`, a list as its length and its items, a text as the
/// length of its UTF-8 form and that form, and a tuple as its parts. It sets
/// no limit on the size and writes into memory, so on a list, texts and
/// integers it always succeeds.
#[verifier::external_body]
fn serialize_recursing_key(
    adapters: &Vec<(String, i32)>,
    path: &str,
    modified: &ModifiedTime,
) -> (r: Result<Vec<u8>, Box<bincode::ErrorKind>>)
    ensures
        r is Ok,
        r matches Ok(bytes) ==> bytes@ == recursing_key_bytes(
            names_and_versions(adapters@),
            path@,
            *modified,
        ),
{
    bincode::serialize(&(adapters, path, (modified.secs_since_epoch, modified.nanos_since_epoch)))
}

/// `bincode::serialize` on the key of an adapter that does not recurse,
/// in the same encoding. On texts and integers it always succeeds.
#[verifier::external_body]
fn serialize_terminal_key(name: &str, version: i32, path: &str, modified: &ModifiedTime) -> (r:
    Result<Vec<u8>, Box<bincode::ErrorKind>>)
    ensures
        r is Ok,
        r matches Ok(bytes) ==> bytes@ == terminal_key_bytes(name@, version, path@, *modified),
{
    bincode::serialize(
        &(name, version, path, (modified.secs_since_epoch, modified.nanos_since_epoch)),
    )
}

/// The cache key of a file. For a recursing adapter it holds every active
/// adapter, since any of them may run below; else the one adapter.
pub open spec fn cache_key_bytes(
    filepath_hint: Seq<char>,
    modified: ModifiedTime,
    name: Seq<char>,
    version: i32,
    recurses: bool,
    active: Seq<AdapterMeta>,
) -> Seq<u8> {
    if recurses {
        recursing_key_bytes(identities(active), cleaned_path(filepath_hint), modified)
    } else {
        terminal_key_bytes(name, version, cleaned_path(filepath_hint), modified)
    }
}

/// Builds the cache key of the file at `filepath_hint`, last modified at
/// `modified`, for `adapter` and the active adapters. A key is always built.
pub fn compute_cache_key<A>(
    filepath_hint: &str,
    modified: &ModifiedTime,
    adapter: &AdapterMeta,
    active_adapters: &Vec<&AdapterEntry<A>>,
) -> (r: Result<Vec<u8>, PreprocError>)
    ensures
        r matches Ok(key) && key@ == cache_key_bytes(
            filepath_hint@,
            *modified,
            adapter.name@,
            adapter.version,
            adapter.recurses,
            metas_of(active_adapters@),
        ),
{
    let clean = clean_path(filepath_hint);
    let serialized = if adapter.recurses {
        let mut list: Vec<(String, i32)> = Vec::new();
        let mut i: usize = 0;
        while i < active_adapters.len()
            invariant
                i <= active_adapters.len(),
                list@.len() == i,
                names_and_versions(list@) == identities(metas_of(active_adapters@)).take(i as int),
            decreases active_adapters.len() - i,
        {
            let entry = active_adapters[i];
            let ghost before = list@;
            let ghost ids = identities(metas_of(active_adapters@));
            list.push((entry.meta.name.clone(), entry.meta.version));
            proof {
                assert(metas_of(active_adapters@)[i as int] == entry.meta);
                assert(ids[i as int] == (entry.meta.name@, entry.meta.version));
                assert forall|j: int| 0 <= j < i + 1 implies names_and_versions(list@)[j]
                    == ids.take(i + 1)[j] by {
                    if j < i {
                        assert(list@[j] == before[j]);
                        assert(names_and_versions(before)[j] == ids.take(i as int)[j]);
                    }
                }
                assert(names_and_versions(list@) =~= ids.take(i + 1));
            }
            i += 1;
        }
        assert(names_and_versions(list@) =~= identities(metas_of(active_adapters@)));
        serialize_recursing_key(&list, clean.as_str(), modified)
    } else {
        serialize_terminal_key(adapter.name.as_str(), adapter.version, clean.as_str(), modified)
    };
    match serialized {
        Ok(key) => Ok(key),
        Err(_) => Err(PreprocError::CacheKey),
    }
}

} // verus!
