//! The order of a listing.
//!
//! Entries are ordered by three keys, the first that differs deciding: the
//! group (where directories or files are asked to come first), the time of
//! the last modification with the newest first (where sorting by time is
//! asked for), and the name without regard to case. Entries alike in all
//! three stay in the order in which they came.

use vstd::prelude::*;
use vstd::utf8::encode_utf8;
use crate::entry::EntryInfo;
use crate::entry::FileKind;
use crate::entry::ModTime;
use crate::long::instant;
use crate::options::Options;
use crate::text::lowercase;
use crate::text::to_lowercase;
use crate::text::lemma_utf8_injective;
use vstd::set_lib::set_int_range;
use vstd::set_lib::lemma_int_range;
use vstd::set_lib::lemma_subset_equality;
use vstd::set_lib::lemma_set_subset_finite;

verus! {

/// How one thing stands to another in an order.
#[derive(Clone, Copy, Debug, PartialEq, Eq, Structural)]
pub enum Order {
    Less,
    Equal,
    Greater,
}

/// The order seen from the other side.
pub open spec fn flip(order: Order) -> Order {
    match order {
        Order::Less => Order::Greater,
        Order::Equal => Order::Equal,
        Order::Greater => Order::Less,
    }
}

/// The order of two byte strings as in a dictionary: the first byte in
/// which they differ decides, and a string comes before its extensions.
pub open spec fn bytes_order(a: Seq<u8>, b: Seq<u8>) -> Order
    decreases a.len(),
{
    if a.len() == 0 {
        if b.len() == 0 {
            Order::Equal
        } else {
            Order::Less
        }
    } else if b.len() == 0 {
        Order::Greater
    } else if a[0] < b[0] {
        Order::Less
    } else if a[0] > b[0] {
        Order::Greater
    } else {
        bytes_order(a.skip(1), b.skip(1))
    }
}

/// Seen from the other side, the order of two byte strings is the other
/// way round.
pub proof fn lemma_bytes_order_flip(a: Seq<u8>, b: Seq<u8>)
    ensures
        bytes_order(b, a) == flip(bytes_order(a, b)),
    decreases a.len(),
{
    if a.len() > 0 && b.len() > 0 && a[0] == b[0] {
        lemma_bytes_order_flip(a.skip(1), b.skip(1));
    }
}

/// Only a byte string itself is equal to it.
pub proof fn lemma_bytes_order_equal(a: Seq<u8>, b: Seq<u8>)
    ensures
        bytes_order(a, b) == Order::Equal <==> a == b,
    decreases a.len(),
{
    if a.len() > 0 && b.len() > 0 && a[0] == b[0] {
        lemma_bytes_order_equal(a.skip(1), b.skip(1));
        if a.skip(1) == b.skip(1) {
            assert(a =~= seq![a[0]] + a.skip(1));
            assert(b =~= seq![b[0]] + b.skip(1));
        }
    }
    if a == b && a.len() > 0 {
        lemma_bytes_order_equal(a.skip(1), b.skip(1));
    }
    if a.len() == 0 && b.len() == 0 {
        assert(a =~= b);
    }
}

/// What is not after a thing that is not after a third, is not after the
/// third.
pub proof fn lemma_bytes_order_transitive(a: Seq<u8>, b: Seq<u8>, c: Seq<u8>)
    requires
        bytes_order(a, b) != Order::Greater,
        bytes_order(b, c) != Order::Greater,
    ensures
        bytes_order(a, c) != Order::Greater,
        bytes_order(a, c) == Order::Equal ==> bytes_order(a, b) == Order::Equal && bytes_order(
            b,
            c,
        ) == Order::Equal,
    decreases a.len(),
{
    if a.len() > 0 && b.len() > 0 && c.len() > 0 && a[0] == b[0] && b[0] == c[0] {
        lemma_bytes_order_transitive(a.skip(1), b.skip(1), c.skip(1));
    }
}

/// The keys of an entry in the order of a listing.
pub struct Key {
    /// The group: a lower group comes first.
    pub group: int,
    /// The time of the last modification: a later time comes first.
    pub stamp: int,
    /// The name in small letters.
    pub name: Seq<u8>,
}

/// The order of two entries by their keys.
pub open spec fn key_order(a: Key, b: Key) -> Order {
    if a.group < b.group {
        Order::Less
    } else if a.group > b.group {
        Order::Greater
    } else if a.stamp > b.stamp {
        Order::Less
    } else if a.stamp < b.stamp {
        Order::Greater
    } else {
        bytes_order(a.name, b.name)
    }
}

/// Seen from the other side, the order of two keys is the other way round.
pub proof fn lemma_key_order_flip(a: Key, b: Key)
    ensures
        key_order(b, a) == flip(key_order(a, b)),
{
    lemma_bytes_order_flip(a.name, b.name);
}

/// The order of keys is transitive.
pub proof fn lemma_key_order_transitive(a: Key, b: Key, c: Key)
    requires
        key_order(a, b) != Order::Greater,
        key_order(b, c) != Order::Greater,
    ensures
        key_order(a, c) != Order::Greater,
        key_order(a, c) == Order::Equal ==> key_order(a, b) == Order::Equal && key_order(b, c)
            == Order::Equal,
{
    if a.group == b.group && b.group == c.group && a.stamp == b.stamp && b.stamp == c.stamp {
        lemma_bytes_order_transitive(a.name, b.name, c.name);
    }
}

/// Whether the key at place `i` comes before the key at place `j`: by the
/// order of the keys, and for keys that are alike by their places.
pub open spec fn precedes(keys: Seq<Key>, i: int, j: int) -> bool {
    key_order(keys[i], keys[j]) == Order::Less || (key_order(keys[i], keys[j]) == Order::Equal
        && i < j)
}

/// Of two different places, one comes before the other, and never both.
pub proof fn lemma_precedes_total(keys: Seq<Key>, i: int, j: int)
    ensures
        !(precedes(keys, i, j) && precedes(keys, j, i)),
        i != j ==> precedes(keys, i, j) || precedes(keys, j, i),
        !precedes(keys, i, i),
{
    lemma_key_order_flip(keys[i], keys[j]);
    lemma_key_order_flip(keys[i], keys[i]);
}

/// What comes before a place that comes before a third, comes before the
/// third.
pub proof fn lemma_precedes_transitive(keys: Seq<Key>, i: int, j: int, k: int)
    requires
        precedes(keys, i, j),
        precedes(keys, j, k),
    ensures
        precedes(keys, i, k),
{
    let (a, b, c) = (keys[i], keys[j], keys[k]);
    lemma_key_order_transitive(a, b, c);
    lemma_key_order_flip(a, c);
    lemma_key_order_flip(a, b);
    lemma_key_order_flip(b, c);
}

/// A point in time before every time that a file can have.
pub open spec fn earliest() -> int {
    -9_223_372_036_854_775_808 * 1_000_000_000 - 1
}

/// The time by which an entry is ordered: its time of modification, and
/// the earliest possible time where that is not known.
pub open spec fn stamp_of(modified: Option<ModTime>) -> int {
    match modified {
        Some(t) => instant(t),
        None => earliest(),
    }
}

/// The group of an entry. Where directories come first they are group 0
/// and all else group 1; where files come first it is the other way round;
/// otherwise all are one group. Directories first wins where both are asked
/// for.
pub open spec fn group_of(is_dir: bool, opts: Options) -> int {
    if opts.sort_dirs_first {
        if is_dir {
            0
        } else {
            1
        }
    } else if opts.sort_files_first {
        if is_dir {
            1
        } else {
            0
        }
    } else {
        0
    }
}

/// The keys of an entry under the given options.
pub open spec fn sort_key(e: EntryInfo, opts: Options) -> Key {
    Key {
        group: group_of(e.metadata.is_dir(), opts),
        stamp: if opts.sort_time {
            stamp_of(e.metadata.modified)
        } else {
            0
        },
        name: encode_utf8(lowercase(e.name@)),
    }
}

/// The order of two entries in a listing.
pub open spec fn entry_order(a: EntryInfo, b: EntryInfo, opts: Options) -> Order {
    key_order(sort_key(a, opts), sort_key(b, opts))
}

/// The keys of a list of entries.
pub open spec fn sort_keys(entries: Seq<EntryInfo>, opts: Options) -> Seq<Key> {
    Seq::new(entries.len(), |i: int| sort_key(entries[i], opts))
}

/// The keys of an entry, computed once before sorting.
pub struct SortKey {
    group: u8,
    stamp: i128,
    name: String,
}

impl View for SortKey {
    type V = Key;

    closed spec fn view(&self) -> Key {
        Key { group: self.group as int, stamp: self.stamp as int, name: encode_utf8(self.name@) }
    }
}

/// The keys of a list of computed keys.
pub open spec fn key_views(keys: Seq<SortKey>) -> Seq<Key> {
    Seq::new(keys.len(), |i: int| keys[i]@)
}

/// Computes the keys of an entry.
pub fn make_key(e: &EntryInfo, opts: &Options) -> (key: SortKey)
    ensures
        key@ == sort_key(*e, *opts),
{
    let is_dir = e.metadata.kind == FileKind::Directory;
    let group: u8 = if opts.sort_dirs_first {
        if is_dir {
            0
        } else {
            1
        }
    } else if opts.sort_files_first {
        if is_dir {
            1
        } else {
            0
        }
    } else {
        0
    };
    let stamp: i128 = if opts.sort_time {
        match e.metadata.modified {
            Some(t) => (t.secs as i128) * 1_000_000_000 + (t.nanos as i128),
            None => -9_223_372_036_854_775_808i128 * 1_000_000_000 - 1,
        }
    } else {
        0
    };
    SortKey { group, stamp, name: to_lowercase(e.name.as_str()) }
}

/// Compares two byte strings as in a dictionary.
pub fn compare_bytes(a: &[u8], b: &[u8]) -> (order: Order)
    ensures
        order == bytes_order(a@, b@),
{
    let mut i: usize = 0;
    assert(a@.skip(0) =~= a@ && b@.skip(0) =~= b@);
    while i < a.len() && i < b.len()
        invariant
            i <= a.len(),
            i <= b.len(),
            bytes_order(a@, b@) == bytes_order(a@.skip(i as int), b@.skip(i as int)),
        decreases a.len() - i,
    {
        let ghost x = a@.skip(i as int);
        let ghost y = b@.skip(i as int);
        assert(x[0] == a[i as int] && y[0] == b[i as int]);
        if a[i] < b[i] {
            return Order::Less;
        }
        if a[i] > b[i] {
            return Order::Greater;
        }
        assert(x.skip(1) =~= a@.skip(i + 1) && y.skip(1) =~= b@.skip(i + 1));
        i += 1;
    }
    assert(a@.skip(i as int).len() == a.len() - i);
    assert(b@.skip(i as int).len() == b.len() - i);
    if i < b.len() {
        Order::Less
    } else if i < a.len() {
        Order::Greater
    } else {
        Order::Equal
    }
}

/// Compares two computed keys.
pub fn compare_keys(a: &SortKey, b: &SortKey) -> (order: Order)
    ensures
        order == key_order(a@, b@),
{
    if a.group < b.group {
        Order::Less
    } else if a.group > b.group {
        Order::Greater
    } else if a.stamp > b.stamp {
        Order::Less
    } else if a.stamp < b.stamp {
        Order::Greater
    } else {
        compare_bytes(a.name.as_str().as_bytes(), b.name.as_str().as_bytes())
    }
}

/// Whether place `x` comes before place `y`.
fn comes_before(keys: &Vec<SortKey>, x: usize, y: usize) -> (yes: bool)
    requires
        x < keys.len(),
        y < keys.len(),
    ensures
        yes == precedes(key_views(keys@), x as int, y as int),
{
    match compare_keys(&keys[x], &keys[y]) {
        Order::Less => true,
        Order::Equal => x < y,
        Order::Greater => false,
    }
}

/// A run of places from `lo` up to `hi`, each coming before the next.
pub open spec fn is_run(keys: Seq<Key>, run: Seq<usize>, lo: int, hi: int) -> bool {
    &&& forall|k: int| 0 <= k < run.len() ==> lo <= #[trigger] run[k] < hi
    &&& forall|a: int, b: int|
        0 <= a < b < run.len() ==> precedes(
            keys,
            #[trigger] run[a] as int,
            #[trigger] run[b] as int,
        )
}

/// Merges two runs, the first of places below `mid` and the second of
/// places from `mid` on, into one run.
fn merge_runs(
    keys: &Vec<SortKey>,
    left: &Vec<usize>,
    right: &Vec<usize>,
    Ghost(lo): Ghost<int>,
    Ghost(mid): Ghost<int>,
    Ghost(hi): Ghost<int>,
) -> (out: Vec<usize>)
    requires
        0 <= lo <= mid <= hi <= keys.len(),
        is_run(key_views(keys@), left@, lo, mid),
        is_run(key_views(keys@), right@, mid, hi),
        left.len() + right.len() <= usize::MAX,
    ensures
        is_run(key_views(keys@), out@, lo, hi),
        out.len() == left.len() + right.len(),
{
    let ghost ks = key_views(keys@);
    let mut out: Vec<usize> = Vec::new();
    let mut i: usize = 0;
    let mut j: usize = 0;
    while i < left.len() || j < right.len()
        invariant
            0 <= lo <= mid <= hi <= keys.len(),
            ks == key_views(keys@),
            is_run(ks, left@, lo, mid),
            is_run(ks, right@, mid, hi),
            i <= left.len(),
            j <= right.len(),
            out.len() == i + j,
            is_run(ks, out@, lo, hi),
            forall|k: int, a: int|
                0 <= k < out.len() && i <= a < left.len() ==> precedes(
                    ks,
                    #[trigger] out[k] as int,
                    #[trigger] left[a] as int,
                ),
            forall|k: int, b: int|
                0 <= k < out.len() && j <= b < right.len() ==> precedes(
                    ks,
                    #[trigger] out[k] as int,
                    #[trigger] right[b] as int,
                ),
        decreases left.len() - i + right.len() - j,
    {
        let ghost before = out@;
        let take_right = if i >= left.len() {
            true
        } else if j >= right.len() {
            false
        } else {
            comes_before(keys, right[j], left[i])
        };
        if take_right {
            let y = right[j];
            out.push(y);
            proof {
                assert forall|k: int, b: int|
                    0 <= k < out.len() && j + 1 <= b < right.len() implies precedes(
                    ks,
                    #[trigger] out[k] as int,
                    #[trigger] right[b] as int,
                ) by {
                    if k < before.len() {
                        assert(out[k] == before[k]);
                    } else {
                        assert(precedes(ks, right[j as int] as int, right[b] as int));
                    }
                }
                assert forall|k: int, a: int|
                    0 <= k < out.len() && i <= a < left.len() implies precedes(
                    ks,
                    #[trigger] out[k] as int,
                    #[trigger] left[a] as int,
                ) by {
                    if k < before.len() {
                        assert(out[k] == before[k]);
                    } else {
                        assert(precedes(ks, y as int, left[i as int] as int));
                        if a > i {
                            assert(precedes(ks, left[i as int] as int, left[a] as int));
                            lemma_precedes_transitive(
                                ks,
                                y as int,
                                left[i as int] as int,
                                left[a] as int,
                            );
                        }
                    }
                }
                assert(is_run(ks, out@, lo, hi)) by {
                    assert forall|a: int, b: int| 0 <= a < b < out.len() implies precedes(
                        ks,
                        #[trigger] out[a] as int,
                        #[trigger] out[b] as int,
                    ) by {
                        if b < before.len() {
                            assert(out[a] == before[a] && out[b] == before[b]);
                        } else {
                            assert(out[a] == before[a]);
                            assert(precedes(ks, before[a] as int, right[j as int] as int));
                        }
                    }
                    assert forall|k: int| 0 <= k < out.len() implies lo <= #[trigger] out[k]
                        < hi by {
                        if k < before.len() {
                            assert(out[k] == before[k]);
                        } else {
                            assert(out[k] == right[j as int]);
                        }
                    }
                }
            }
            j += 1;
        } else {
            let x = left[i];
            out.push(x);
            proof {
                if j < right.len() {
                    lemma_precedes_total(ks, x as int, right[j as int] as int);
                    assert(left[i as int] != right[j as int]);
                }
                assert forall|k: int, a: int|
                    0 <= k < out.len() && i + 1 <= a < left.len() implies precedes(
                    ks,
                    #[trigger] out[k] as int,
                    #[trigger] left[a] as int,
                ) by {
                    if k < before.len() {
                        assert(out[k] == before[k]);
                    } else {
                        assert(precedes(ks, left[i as int] as int, left[a] as int));
                    }
                }
                assert forall|k: int, b: int|
                    0 <= k < out.len() && j <= b < right.len() implies precedes(
                    ks,
                    #[trigger] out[k] as int,
                    #[trigger] right[b] as int,
                ) by {
                    if k < before.len() {
                        assert(out[k] == before[k]);
                    } else {
                        assert(precedes(ks, x as int, right[j as int] as int));
                        if b > j {
                            assert(precedes(ks, right[j as int] as int, right[b] as int));
                            lemma_precedes_transitive(
                                ks,
                                x as int,
                                right[j as int] as int,
                                right[b] as int,
                            );
                        }
                    }
                }
                assert(is_run(ks, out@, lo, hi)) by {
                    assert forall|a: int, b: int| 0 <= a < b < out.len() implies precedes(
                        ks,
                        #[trigger] out[a] as int,
                        #[trigger] out[b] as int,
                    ) by {
                        if b < before.len() {
                            assert(out[a] == before[a] && out[b] == before[b]);
                        } else {
                            assert(out[a] == before[a]);
                            assert(precedes(ks, before[a] as int, left[i as int] as int));
                        }
                    }
                    assert forall|k: int| 0 <= k < out.len() implies lo <= #[trigger] out[k]
                        < hi by {
                        if k < before.len() {
                            assert(out[k] == before[k]);
                        } else {
                            assert(out[k] == left[i as int]);
                        }
                    }
                }
            }
            i += 1;
        }
    }
    out
}

/// The places from `lo` up to `hi` as a run.
fn sort_range(keys: &Vec<SortKey>, lo: usize, hi: usize) -> (run: Vec<usize>)
    requires
        lo <= hi <= keys.len(),
    ensures
        is_run(key_views(keys@), run@, lo as int, hi as int),
        run.len() == hi - lo,
    decreases hi - lo,
{
    if hi - lo == 0 {
        Vec::new()
    } else if hi - lo == 1 {
        let mut run: Vec<usize> = Vec::new();
        run.push(lo);
        run
    } else {
        let mid = lo + (hi - lo) / 2;
        let left = sort_range(keys, lo, mid);
        let right = sort_range(keys, mid, hi);
        merge_runs(keys, &left, &right, Ghost(lo as int), Ghost(mid as int), Ghost(hi as int))
    }
}

/// An arrangement of the places below `n`: each place once.
pub open spec fn is_arrangement(places: Seq<int>, n: nat) -> bool {
    &&& places.len() == n
    &&& forall|k: int| 0 <= k < places.len() ==> 0 <= #[trigger] places[k] < n
    &&& places.no_duplicates()
}

/// Whether `output` holds the entries of `input` in the places `places`,
/// and in the order of a listing: each entry comes before the next by its
/// keys, or is alike in its keys and came before it in `input`.
pub open spec fn sorted_by(
    input: Seq<EntryInfo>,
    output: Seq<EntryInfo>,
    places: Seq<int>,
    opts: Options,
) -> bool {
    &&& is_arrangement(places, input.len())
    &&& output.len() == input.len()
    &&& forall|k: int| 0 <= k < output.len() ==> #[trigger] output[k] == input[places[k]]
    &&& forall|a: int, b: int|
        0 <= a < b < places.len() ==> precedes(
            sort_keys(input, opts),
            #[trigger] places[a],
            #[trigger] places[b],
        )
}

/// Whether `output` is `input` sorted for a listing, entries with like keys
/// staying in their order.
pub open spec fn is_stable_sort(
    input: Seq<EntryInfo>,
    output: Seq<EntryInfo>,
    opts: Options,
) -> bool {
    exists|places: Seq<int>| sorted_by(input, output, places, opts)
}

/// An arrangement of the places below `n` holds each of them.
pub proof fn lemma_arrangement_holds_all(places: Seq<int>, n: nat, x: int)
    requires
        is_arrangement(places, n),
        0 <= x < n,
    ensures
        exists|m: int| 0 <= m < n && places[m] == x,
{
    places.unique_seq_to_set();
    lemma_int_range(0, n as int);
    assert(places.to_set().subset_of(set_int_range(0, n as int))) by {
        assert forall|v: int| places.to_set().contains(v) implies set_int_range(
            0,
            n as int,
        ).contains(v) by {
            let m = choose|m: int| 0 <= m < places.len() && places[m] == v;
            assert(0 <= places[m] < n);
        }
    }
    lemma_set_subset_finite(set_int_range(0, n as int), places.to_set());
    lemma_subset_equality(places.to_set(), set_int_range(0, n as int));
    assert(set_int_range(0, n as int).contains(x));
    assert(places.to_set().contains(x));
    assert(places.contains(x));
}

/// Two arrangements that both are in the order of the keys agree up to
/// every place.
proof fn lemma_sorted_arrangements_agree(keys: Seq<Key>, p: Seq<int>, q: Seq<int>, upto: int)
    requires
        is_arrangement(p, keys.len()),
        is_arrangement(q, keys.len()),
        forall|a: int, b: int|
            0 <= a < b < p.len() ==> precedes(keys, #[trigger] p[a], #[trigger] p[b]),
        forall|a: int, b: int|
            0 <= a < b < q.len() ==> precedes(keys, #[trigger] q[a], #[trigger] q[b]),
        0 <= upto <= keys.len(),
    ensures
        forall|k: int| 0 <= k < upto ==> p[k] == q[k],
    decreases upto,
{
    if upto > 0 {
        lemma_sorted_arrangements_agree(keys, p, q, upto - 1);
        let k = upto - 1;
        if p[k] != q[k] {
            let n = keys.len();
            lemma_arrangement_holds_all(q, n, p[k]);
            let m = choose|m: int| 0 <= m < n && q[m] == p[k];
            if m < k {
                assert(p[m] == q[m]);
            }
            assert(m > k);
            assert(precedes(keys, q[k], q[m]));
            lemma_arrangement_holds_all(p, n, q[k]);
            let m2 = choose|m2: int| 0 <= m2 < n && p[m2] == q[k];
            if m2 < k {
                assert(p[m2] == q[m2]);
            }
            assert(m2 > k);
            assert(precedes(keys, p[k], p[m2]));
            lemma_precedes_total(keys, p[k], q[k]);
        }
    }
}

/// Sorting is exact: the entries and the options decide the sorted list,
/// and the order in which entries with like keys come out as well.
pub proof fn lemma_stable_sort_unique(
    input: Seq<EntryInfo>,
    first: Seq<EntryInfo>,
    second: Seq<EntryInfo>,
    opts: Options,
)
    requires
        is_stable_sort(input, first, opts),
        is_stable_sort(input, second, opts),
    ensures
        first == second,
{
    let p = choose|places: Seq<int>| sorted_by(input, first, places, opts);
    let q = choose|places: Seq<int>| sorted_by(input, second, places, opts);
    let keys = sort_keys(input, opts);
    lemma_sorted_arrangements_agree(keys, p, q, input.len() as int);
    assert(first =~= second);
}

/// The order of entries is the other way round seen from the other side;
/// in particular, each two entries can be compared.
pub proof fn lemma_entry_order_flip(a: EntryInfo, b: EntryInfo, opts: Options)
    ensures
        entry_order(b, a, opts) == flip(entry_order(a, b, opts)),
        entry_order(a, a, opts) == Order::Equal,
{
    lemma_key_order_flip(sort_key(a, opts), sort_key(b, opts));
    lemma_key_order_flip(sort_key(a, opts), sort_key(a, opts));
}

/// The order of entries is transitive.
pub proof fn lemma_entry_order_transitive(a: EntryInfo, b: EntryInfo, c: EntryInfo, opts: Options)
    requires
        entry_order(a, b, opts) != Order::Greater,
        entry_order(b, c, opts) != Order::Greater,
    ensures
        entry_order(a, c, opts) != Order::Greater,
        entry_order(a, c, opts) == Order::Equal ==> entry_order(a, b, opts) == Order::Equal
            && entry_order(b, c, opts) == Order::Equal,
{
    lemma_key_order_transitive(sort_key(a, opts), sort_key(b, opts), sort_key(c, opts));
}

/// With directories first, a directory comes before everything that is no
/// directory, whatever their times and names. With files first, and
/// directories first not asked for, it comes after.
pub proof fn lemma_grouping_outranks(a: EntryInfo, b: EntryInfo, opts: Options)
    requires
        a.metadata.is_dir(),
        !b.metadata.is_dir(),
    ensures
        opts.sort_dirs_first ==> entry_order(a, b, opts) == Order::Less,
        opts.sort_files_first && !opts.sort_dirs_first ==> entry_order(a, b, opts)
            == Order::Greater,
{
}

/// Within one group, and with like times where the time counts, the names
/// alone decide the order.
pub proof fn lemma_names_decide(a: EntryInfo, b: EntryInfo, opts: Options)
    requires
        group_of(a.metadata.is_dir(), opts) == group_of(b.metadata.is_dir(), opts),
        opts.sort_time ==> stamp_of(a.metadata.modified) == stamp_of(b.metadata.modified),
    ensures
        entry_order(a, b, opts) == bytes_order(
            encode_utf8(lowercase(a.name@)),
            encode_utf8(lowercase(b.name@)),
        ),
{
}

/// No tie remains between entries whose names differ in more than case.
pub proof fn lemma_no_ties(a: EntryInfo, b: EntryInfo, opts: Options)
    requires
        lowercase(a.name@) != lowercase(b.name@),
    ensures
        entry_order(a, b, opts) != Order::Equal,
{
    let x = encode_utf8(lowercase(a.name@));
    let y = encode_utf8(lowercase(b.name@));
    lemma_bytes_order_equal(x, y);
    if x == y {
        lemma_utf8_injective(lowercase(a.name@), lowercase(b.name@));
    }
}

/// Sorts the entries for a listing.
pub fn sort_entries(entries: Vec<EntryInfo>, opts: &Options) -> (sorted: Vec<EntryInfo>)
    ensures
        is_stable_sort(entries@, sorted@, *opts),
{
    let n = entries.len();
    let ghost input = entries@;
    let mut keys: Vec<SortKey> = Vec::new();
    let mut i: usize = 0;
    while i < n
        invariant
            i <= n,
            n == entries.len(),
            keys.len() == i,
            forall|k: int| 0 <= k < i ==> (#[trigger] keys[k])@ == sort_key(entries[k], *opts),
        decreases n - i,
    {
        keys.push(make_key(&entries[i], opts));
        i += 1;
    }
    let ghost ks = sort_keys(input, *opts);
    assert(key_views(keys@) =~= ks);
    let order = sort_range(&keys, 0, n);
    proof {
        assert forall|a: int, b: int| 0 <= a < b < order.len() implies #[trigger] order[a]
            != #[trigger] order[b] by {
            lemma_precedes_total(ks, order[a] as int, order[b] as int);
        }
    }
    let mut slots: Vec<Option<EntryInfo>> = Vec::new();
    for e in it: entries
        invariant
            it.seq() == input,
            slots.len() == it.index(),
            forall|k: int| 0 <= k < slots.len() ==> #[trigger] slots[k] == Some(input[k]),
    {
        slots.push(Some(e));
    }
    let mut sorted: Vec<EntryInfo> = Vec::new();
    let mut k: usize = 0;
    while k < n
        invariant
            k <= n,
            n == input.len(),
            order.len() == n,
            slots.len() == n,
            sorted.len() == k,
            forall|t: int| 0 <= t < order.len() ==> #[trigger] order[t] < n,
            forall|a: int, b: int|
                0 <= a < b < order.len() ==> #[trigger] order[a] != #[trigger] order[b],
            forall|t: int| 0 <= t < k ==> #[trigger] sorted[t] == input[order[t] as int],
            forall|t: int|
                k <= t < n ==> slots[#[trigger] order[t] as int] == Some(input[order[t] as int]),
        decreases n - k,
    {
        let place = order[k];
        let ghost slots_before = slots@;
        let taken = slots[place].take();
        assert(slots@ =~= slots_before.update(place as int, None));
        sorted.push(taken.unwrap());
        k += 1;
    }
    proof {
        let places = Seq::new(n as nat, |t: int| order[t] as int);
        assert(sorted_by(input, sorted@, places, *opts));
    }
    sorted
}

} // verus!
