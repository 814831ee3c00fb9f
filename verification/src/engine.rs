//! The storage engine as this library sees it: the handles it holds, a
//! mathematical model of what a keyspace stores, and one thin function per
//! engine call. Nothing in this file is proved; every contract here is a
//! statement about the engine that the rest of the library relies on.
//!
//! The model is that of a single owner: a keyspace handle is held by exactly
//! one store, which never clones it, so what the keyspace holds changes only
//! through the `&mut` functions below.

use vstd::prelude::*;
use vstd::string::StringSliceAdditionalSpecFns;

verus! {

#[verifier::external_type_specification]
#[verifier::external_body]
pub struct ExDatabase(fjall::Database);

#[verifier::external_type_specification]
#[verifier::external_body]
pub struct ExKeyspace(fjall::Keyspace);

#[verifier::external_type_specification]
#[verifier::external_body]
pub struct ExScan(fjall::Iter);

#[verifier::external_type_specification]
#[verifier::external_body]
pub struct ExEngineError(fjall::Error);

/// The longest key, in bytes, that the engine accepts.
pub const MAX_KEY_LEN: usize = 65535;

/// The longest value, in bytes, that the engine accepts.
pub const MAX_VALUE_LEN: usize = 0xFFFF_FFFF;

/// The longest keyspace name, in bytes, that the engine accepts.
pub const MAX_NAME_LEN: usize = 255;

/// The entries that a keyspace holds: each stored key with its value.
pub uninterp spec fn keyspace_entries(keyspace: fjall::Keyspace) -> Map<Seq<u8>, Seq<u8>>;

/// The name under which a keyspace was opened.
pub uninterp spec fn keyspace_name(keyspace: fjall::Keyspace) -> Seq<char>;

/// The keys that a running scan has yet to hand out, next one first.
pub uninterp spec fn scan_remaining(scan: fjall::Iter) -> Seq<Seq<u8>>;

/// Strict lexicographic order on byte strings: the order in which the engine
/// keeps its keys.
pub open spec fn bytes_before(a: Seq<u8>, b: Seq<u8>) -> bool
    decreases a.len(),
{
    if b.len() == 0 {
        false
    } else if a.len() == 0 {
        true
    } else if a[0] != b[0] {
        a[0] < b[0]
    } else {
        bytes_before(a.drop_first(), b.drop_first())
    }
}

/// `keys` is the scan of `entries` by `prefix`: every stored key that begins
/// with `prefix`, each once, in ascending byte order.
pub open spec fn is_prefix_scan(
    entries: Map<Seq<u8>, Seq<u8>>,
    prefix: Seq<u8>,
    keys: Seq<Seq<u8>>,
) -> bool {
    &&& forall|i: int|
        0 <= i < keys.len() ==> entries.contains_key(#[trigger] keys[i]) && prefix.is_prefix_of(
            keys[i],
        )
    &&& forall|key: Seq<u8>|
        entries.contains_key(key) && prefix.is_prefix_of(key) ==> #[trigger] keys.contains(key)
    &&& forall|i: int, j: int|
        0 <= i < j < keys.len() ==> bytes_before(#[trigger] keys[i], #[trigger] keys[j])
}

/// A folder named by an absolute path, as a POSIX system reads paths: one
/// that begins at the root, with `/`.
pub open spec fn is_absolute(folder: Seq<char>) -> bool {
    folder.len() > 0 && folder[0] == '/'
}

/// Opens the database in `folder`, creating it if the folder holds none.
///
/// Calls `fjall::Database::builder(folder).open()`. Nothing is claimed of the
/// outcome: it depends on the file system. The engine first makes the folder
/// absolute with `std::path::absolute` and panics where that fails. It fails
/// on an empty path, and on a relative path where the current directory
/// cannot be determined; an absolute path is taken without a look at the
/// current directory. So only absolute folders are admitted.
#[verifier::external_body]
pub(crate) fn open_database(folder: &str) -> (r: Result<fjall::Database, fjall::Error>)
    requires
        is_absolute(folder@),
{
    fjall::Database::builder(folder).open()
}

/// Opens the keyspace called `name`, creating it if the database has none.
///
/// Calls `fjall::Database::keyspace` with the default creation options. A
/// keyspace that was opened bears the name that was asked for. Nothing is
/// claimed of what it holds: that is whatever was stored before. The engine
/// panics on an empty name and on one longer than `MAX_NAME_LEN`, so such
/// names are excluded.
#[verifier::external_body]
pub(crate) fn open_keyspace(database: &fjall::Database, name: &str) -> (r: Result<
    fjall::Keyspace,
    fjall::Error,
>)
    requires
        0 < name.spec_bytes().len() <= MAX_NAME_LEN,
    ensures
        r matches Ok(keyspace) ==> keyspace_name(keyspace) == name@,
{
    database.keyspace(name, fjall::KeyspaceCreateOptions::default)
}

/// Reads the value stored under `key`.
///
/// Calls `fjall::Keyspace::get`. A successful read returns the stored value,
/// or nothing where the keyspace has no such key. The engine panics on a key
/// longer than `MAX_KEY_LEN`, so such keys are excluded.
#[verifier::external_body]
pub(crate) fn keyspace_get(keyspace: &fjall::Keyspace, key: &[u8]) -> (r: Result<
    Option<Vec<u8>>,
    fjall::Error,
>)
    requires
        key@.len() <= MAX_KEY_LEN,
    ensures
        match r {
            Ok(Some(value)) => keyspace_entries(*keyspace).contains_key(key@) && value@
                == keyspace_entries(*keyspace)[key@],
            Ok(None) => !keyspace_entries(*keyspace).contains_key(key@),
            Err(_) => true,
        },
{
    match keyspace.get(key) {
        Ok(Some(value)) => Ok(Some(value.to_vec())),
        Ok(None) => Ok(None),
        Err(err) => Err(err),
    }
}

/// Stores `value` under `key`, replacing what was stored there.
///
/// Calls `fjall::Keyspace::insert`. On success the keyspace holds `value`
/// under `key` and is otherwise unchanged; on failure it is unchanged, since
/// the engine reports every failure before it touches its tree. The keyspace
/// keeps its name. The engine panics on an empty key, on a key longer than
/// `MAX_KEY_LEN` and on a value longer than `MAX_VALUE_LEN`, so these are
/// excluded.
#[verifier::external_body]
pub(crate) fn keyspace_insert(keyspace: &mut fjall::Keyspace, key: &[u8], value: &[u8]) -> (r:
    Result<(), fjall::Error>)
    requires
        0 < key@.len() <= MAX_KEY_LEN,
        value@.len() <= MAX_VALUE_LEN,
    ensures
        r is Ok ==> keyspace_entries(*final(keyspace)) == keyspace_entries(*old(keyspace)).insert(
            key@,
            value@,
        ),
        r is Err ==> keyspace_entries(*final(keyspace)) == keyspace_entries(*old(keyspace)),
        keyspace_name(*final(keyspace)) == keyspace_name(*old(keyspace)),
{
    keyspace.insert(key, value)
}

/// Flushes the journal to disk, data and metadata.
///
/// Calls `fjall::Database::persist` with `PersistMode::SyncAll`. Nothing is
/// claimed of the outcome.
#[verifier::external_body]
pub(crate) fn database_persist(database: &fjall::Database) -> (r: Result<(), fjall::Error>) {
    database.persist(fjall::PersistMode::SyncAll)
}

/// Starts a scan over the keys that begin with `prefix`.
///
/// Calls `fjall::Keyspace::prefix`. The scan is taken over what the keyspace
/// holds at this moment, and will hand out every key with that prefix in
/// ascending byte order. A bound of the scan is built as an engine key, which
/// panics beyond `MAX_KEY_LEN`, so longer prefixes are excluded.
#[verifier::external_body]
pub(crate) fn keyspace_prefix(keyspace: &fjall::Keyspace, prefix: &[u8]) -> (scan: fjall::Iter)
    requires
        prefix@.len() <= MAX_KEY_LEN,
    ensures
        is_prefix_scan(keyspace_entries(*keyspace), prefix@, scan_remaining(scan)),
{
    keyspace.prefix(prefix)
}

/// Takes the next key from a scan.
///
/// Calls `Iterator::next` on the `fjall::Iter` and `fjall::Guard::key` on the
/// item. A key that was read is the first of those still to come; the scan
/// ends only when none is left. Nothing is claimed once a read has failed.
#[verifier::external_body]
pub(crate) fn scan_next_key(scan: &mut fjall::Iter) -> (r: Option<Result<Vec<u8>, fjall::Error>>)
    ensures
        match r {
            Some(Ok(key)) => scan_remaining(*old(scan)).len() > 0 && key@ == scan_remaining(
                *old(scan),
            )[0] && scan_remaining(*final(scan)) == scan_remaining(*old(scan)).drop_first(),
            Some(Err(_)) => true,
            None => scan_remaining(*old(scan)).len() == 0,
        },
{
    match scan.next() {
        Some(guard) => match guard.key() {
            Ok(key) => Some(Ok(key.to_vec())),
            Err(err) => Some(Err(err)),
        },
        None => None,
    }
}

/// The text that the engine gives for one of its errors.
///
/// Calls the `Display` implementation of `fjall::Error`. Nothing is claimed
/// of the text.
#[verifier::external_body]
pub(crate) fn engine_error_text(err: &fjall::Error) -> (text: String) {
    err.to_string()
}

} // verus!
