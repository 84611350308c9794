//! What the runtime takes from other crates and from the host's clock.
//!
//! Each item here is believed, not proved: its contract says what the named
//! function of the other crate does.
use vstd::prelude::*;
use vstd::multiset::Multiset;
use vstd::utf8::encode_utf8;
use bytes::{BufMut, Bytes, BytesMut};
use hashbag::HashBag;
use indexmap::IndexMap;
use std::fmt::Write;
use std::time::{Duration, Instant, SystemTime, SystemTimeError};
use crate::le::{le32, le64};

verus! {

/// An insertion-ordered map of the `indexmap` crate.
#[verifier::external_type_specification]
#[verifier::external_body]
#[verifier::reject_recursive_types(K)]
#[verifier::reject_recursive_types(V)]
#[verifier::reject_recursive_types(S)]
pub struct ExIndexMap<K, V, S>(IndexMap<K, V, S>);

/// The entries of an `IndexMap`, in the map's order.
pub uninterp spec fn index_entries(m: IndexMap<String, usize>) -> Seq<(Seq<char>, usize)>;

/// Entry `i` has key `k`.
pub open spec fn entry_has_key(s: Seq<(Seq<char>, usize)>, k: Seq<char>, i: int) -> bool {
    0 <= i < s.len() && s[i].0 == k
}

/// Some entry has key `k`.
pub open spec fn has_entry(s: Seq<(Seq<char>, usize)>, k: Seq<char>) -> bool {
    exists|i: int| entry_has_key(s, k, i)
}

/// The value under key `k`.
pub open spec fn entry_value(s: Seq<(Seq<char>, usize)>, k: Seq<char>) -> usize {
    s[choose|i: int| entry_has_key(s, k, i)].1
}

/// The entries after `k` was given the value `v`: in place where `k` has an entry
/// already, else at the end.
pub open spec fn put_entry(s: Seq<(Seq<char>, usize)>, k: Seq<char>, v: usize) -> Seq<
    (Seq<char>, usize),
> {
    if has_entry(s, k) {
        s.update(choose|i: int| entry_has_key(s, k, i), (k, v))
    } else {
        s.push((k, v))
    }
}

/// No key occurs twice.
pub open spec fn distinct_keys(s: Seq<(Seq<char>, usize)>) -> bool {
    forall|i: int, j: int| 0 <= i < j < s.len() ==> s[i].0 != s[j].0
}

/// `IndexMap::new`: an empty map.
#[verifier::external_body]
pub(crate) fn index_new() -> (m: IndexMap<String, usize>)
    ensures
        index_entries(m) == Seq::<(Seq<char>, usize)>::empty(),
{
    IndexMap::new()
}

/// `IndexMap::insert`: a known key keeps its place and gets the new value, and the
/// older value comes back; a new key goes last. Keys stay distinct.
#[verifier::external_body]
pub(crate) fn index_insert(m: &mut IndexMap<String, usize>, key: String, value: usize) -> (r:
    Option<usize>)
    ensures
        index_entries(*final(m)) == put_entry(index_entries(*old(m)), key@, value),
        distinct_keys(index_entries(*final(m))),
        r is Some <==> has_entry(index_entries(*old(m)), key@),
        r is Some ==> r == Some(entry_value(index_entries(*old(m)), key@)),
{
    m.insert(key, value)
}

/// `IndexMap::get`: the value under a key, if the key is there.
#[verifier::external_body]
pub(crate) fn index_get(m: &IndexMap<String, usize>, key: &str) -> (r: Option<usize>)
    ensures
        r is Some <==> has_entry(index_entries(*m), key@),
        r is Some ==> r == Some(entry_value(index_entries(*m), key@)),
        forall|i: int| #[trigger]
            entry_has_key(index_entries(*m), key@, i) ==> r == Some(index_entries(*m)[i].1),
{
    m.get(key).copied()
}

/// `IndexMap::contains_key`: whether a key is there.
#[verifier::external_body]
pub(crate) fn index_contains(m: &IndexMap<String, usize>, key: &str) -> (r: bool)
    ensures
        r == has_entry(index_entries(*m), key@),
{
    m.contains_key(key)
}

/// `IndexMap::len`: the number of entries.
#[verifier::external_body]
pub(crate) fn index_len(m: &IndexMap<String, usize>) -> (n: usize)
    ensures
        n == index_entries(*m).len(),
{
    m.len()
}

/// `IndexMap::get_index`: the entry at a position of the map's order.
#[verifier::external_body]
pub(crate) fn index_at(m: &IndexMap<String, usize>, i: usize) -> (r: Option<(&String, usize)>)
    ensures
        r is Some <==> i < index_entries(*m).len(),
        r matches Some(e) ==> index_entries(*m)[i as int] == (e.0@, e.1),
{
    m.get_index(i).map(|e| (e.0, *e.1))
}

/// An unordered bag of the `hashbag` crate.
#[verifier::external_type_specification]
#[verifier::external_body]
#[verifier::reject_recursive_types(T)]
#[verifier::reject_recursive_types(S)]
pub struct ExHashBag<T, S>(HashBag<T, S>);

/// What a `HashBag` holds.
pub uninterp spec fn bag_contents(b: HashBag<u64>) -> Multiset<u64>;

/// `HashBag::new`: an empty bag.
#[verifier::external_body]
pub(crate) fn bag_new() -> (b: HashBag<u64>)
    ensures
        bag_contents(b) == Multiset::<u64>::empty(),
{
    HashBag::new()
}

/// `HashBag::insert_many`: `count` more occurrences of a value; the number there
/// before comes back. The bag counts its items in a `usize`.
#[verifier::external_body]
pub(crate) fn bag_insert_many(b: &mut HashBag<u64>, value: u64, count: usize) -> (was: usize)
    requires
        bag_contents(*old(b)).len() + count <= usize::MAX,
    ensures
        forall|v: u64| #[trigger]
            bag_contents(*final(b)).count(v) == bag_contents(*old(b)).count(v) + if v == value {
                count as nat
            } else {
                0nat
            },
        bag_contents(*final(b)).len() == bag_contents(*old(b)).len() + count,
        was == bag_contents(*old(b)).count(value),
{
    b.insert_many(value, count)
}

/// `HashBag::contains`: how often a value occurs.
#[verifier::external_body]
pub(crate) fn bag_count(b: &HashBag<u64>, value: u64) -> (n: usize)
    ensures
        n == bag_contents(*b).count(value),
{
    b.contains(&value)
}

/// `HashBag::remove_up_to`: at most `quantity` occurrences of a value go; the number
/// that is left comes back.
#[verifier::external_body]
pub(crate) fn bag_remove_up_to(b: &mut HashBag<u64>, value: u64, quantity: usize) -> (left: usize)
    ensures
        forall|v: u64| v != value ==> #[trigger] bag_contents(*final(b)).count(v) == bag_contents(
            *old(b),
        ).count(v),
        bag_contents(*final(b)).count(value) == left,
        left == if bag_contents(*old(b)).count(value) <= quantity {
            0int
        } else {
            bag_contents(*old(b)).count(value) - quantity
        },
{
    b.remove_up_to(&value, quantity)
}

/// A growing byte buffer of the `bytes` crate.
#[verifier::external_type_specification]
#[verifier::external_body]
pub struct ExBytesMut(BytesMut);

/// A frozen byte buffer of the `bytes` crate.
#[verifier::external_type_specification]
#[verifier::external_body]
pub struct ExBytes(Bytes);

/// What a `BytesMut` holds.
pub uninterp spec fn buffer_bytes(b: BytesMut) -> Seq<u8>;

/// What a `Bytes` holds.
pub uninterp spec fn frozen_bytes(b: Bytes) -> Seq<u8>;

/// `BytesMut::new`: an empty buffer.
#[verifier::external_body]
pub(crate) fn buffer_new() -> (b: BytesMut)
    ensures
        buffer_bytes(b) == Seq::<u8>::empty(),
{
    BytesMut::new()
}

/// `BufMut::put_u32_le` on a `BytesMut`: the four bytes of `n`, least significant
/// first, go to the end. A buffer holds no more than `isize::MAX` bytes.
#[verifier::external_body]
pub(crate) fn buffer_put_u32_le(b: &mut BytesMut, n: u32)
    requires
        buffer_bytes(*old(b)).len() + 4 <= isize::MAX,
    ensures
        buffer_bytes(*final(b)) == buffer_bytes(*old(b)) + le32(n),
{
    b.put_u32_le(n)
}

/// `BufMut::put_u64_le` on a `BytesMut`: the eight bytes of `n`, least significant
/// first, go to the end. A buffer holds no more than `isize::MAX` bytes.
#[verifier::external_body]
pub(crate) fn buffer_put_u64_le(b: &mut BytesMut, n: u64)
    requires
        buffer_bytes(*old(b)).len() + 8 <= isize::MAX,
    ensures
        buffer_bytes(*final(b)) == buffer_bytes(*old(b)) + le64(n),
{
    b.put_u64_le(n)
}

/// `write_str` on a `BytesMut`: the bytes of the text go to the end. It fails only
/// where the buffer would hold more than `isize::MAX` bytes.
#[verifier::external_body]
pub(crate) fn buffer_write_str(b: &mut BytesMut, s: &str)
    requires
        buffer_bytes(*old(b)).len() + encode_utf8(s@).len() <= isize::MAX,
    ensures
        buffer_bytes(*final(b)) == buffer_bytes(*old(b)) + encode_utf8(s@),
{
    b.write_str(s).unwrap()
}

/// `BytesMut::freeze`: the same bytes, no longer growing.
#[verifier::external_body]
pub(crate) fn buffer_freeze(b: BytesMut) -> (r: Bytes)
    ensures
        frozen_bytes(r) == buffer_bytes(b),
{
    b.freeze()
}

/// A `Bytes` as a slice: the bytes that it holds.
#[verifier::external_body]
pub(crate) fn bytes_slice(b: &Bytes) -> (r: &[u8])
    ensures
        r@ == frozen_bytes(*b),
{
    b.as_ref()
}

/// `chrono::Local::now`, read as seconds since the epoch and nanoseconds within the
/// second. A leap second counts up to two billion nanoseconds. Which instant it is,
/// the contract leaves open.
#[verifier::external_body]
pub(crate) fn local_now() -> (r: (i64, u32))
    ensures
        r.1 < 2_000_000_000,
{
    let now = chrono::Local::now();
    (now.timestamp(), now.timestamp_subsec_nanos())
}

/// `rand::random::<u8>`: any byte.
#[verifier::external_body]
pub(crate) fn random_byte() -> (b: u8) {
    rand::random::<u8>()
}

/// The host's wall clock.
#[verifier::external_type_specification]
#[verifier::external_body]
pub struct ExSystemTime(SystemTime);

/// The host's steady clock.
#[verifier::external_type_specification]
#[verifier::external_body]
pub struct ExInstant(Instant);

/// The error of a clock that stands before the epoch.
#[verifier::external_type_specification]
#[verifier::external_body]
pub struct ExSystemTimeError(SystemTimeError);

/// `SystemTime::now`: some instant.
pub assume_specification[ SystemTime::now ]() -> (r: SystemTime)
;

/// What `SystemTime::duration_since` the Unix epoch gives for an instant.
pub uninterp spec fn epoch_distance(t: SystemTime) -> Result<Duration, SystemTimeError>;

/// `SystemTime::duration_since` the Unix epoch: the time since then, or an error
/// where the clock stands before it.
#[verifier::external_body]
pub(crate) fn since_epoch(t: SystemTime) -> (r: Result<Duration, SystemTimeError>)
    ensures
        r == epoch_distance(t),
{
    t.duration_since(std::time::UNIX_EPOCH)
}

/// `Instant::now`: some instant.
pub assume_specification[ Instant::now ]() -> (r: Instant)
;

/// What `Instant::duration_since` gives for two instants.
pub uninterp spec fn elapsed_between(later: Instant, earlier: Instant) -> Duration;

/// `Instant::duration_since`: the time from `earlier` on; zero where `earlier` is later.
pub assume_specification[ Instant::duration_since ](i: &Instant, earlier: Instant) -> (r: Duration)
    ensures
        r == elapsed_between(*i, earlier),
;

/// The whole seconds of a duration.
pub uninterp spec fn duration_secs(d: Duration) -> u64;

/// The part of a duration below a second, in nanoseconds.
pub uninterp spec fn duration_nanos(d: Duration) -> u32;

/// `Duration::as_secs`: whole seconds.
pub assume_specification[ Duration::as_secs ](d: &Duration) -> (r: u64)
    ensures
        r == duration_secs(*d),
;

/// `Duration::subsec_nanos`: the part below a second, below one billion.
pub assume_specification[ Duration::subsec_nanos ](d: &Duration) -> (r: u32)
    ensures
        r == duration_nanos(*d),
        r < 1_000_000_000,
;

} // verus!
