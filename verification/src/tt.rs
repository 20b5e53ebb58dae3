use vstd::prelude::*;

verus! {

/// How many entries one bucket holds at most.
pub const BUCKET_SLOTS: usize = 4;

/// The first place among the first `n` entries of a bucket that holds `key`.
pub open spec fn bucket_find<V>(bucket: Seq<(u64, V)>, key: u64, n: int) -> Option<int>
    decreases n,
{
    if n <= 0 {
        None
    } else {
        match bucket_find(bucket, key, n - 1) {
            Some(i) => Some(i),
            None => if bucket[n - 1].0 == key {
                Some(n - 1)
            } else {
                None
            },
        }
    }
}

/// What a bucket answers for `key`: the value of the first entry that holds it.
pub open spec fn bucket_lookup<V>(bucket: Seq<(u64, V)>, key: u64) -> Option<V> {
    match bucket_find(bucket, key, bucket.len() as int) {
        Some(i) => Some(bucket[i].1),
        None => None,
    }
}

/// A bucket after `key` was written: an entry that holds the key is
/// overwritten where it is; otherwise the entry is appended while the bucket
/// has fewer than four entries, and replaces the last one when it is full.
pub open spec fn bucket_insert<V>(bucket: Seq<(u64, V)>, key: u64, value: V) -> Seq<(u64, V)> {
    match bucket_find(bucket, key, bucket.len() as int) {
        Some(i) => bucket.update(i, (key, value)),
        None => if bucket.len() < BUCKET_SLOTS {
            bucket.push((key, value))
        } else {
            bucket.update(BUCKET_SLOTS - 1, (key, value))
        },
    }
}

/// What a table with these buckets answers for `key`.
pub open spec fn table_fetch<V>(buckets: Seq<Seq<(u64, V)>>, key: u64) -> Option<V> {
    bucket_lookup(buckets[key as int % buckets.len() as int], key)
}

/// The buckets of a table after `key` was written.
pub open spec fn table_insert<V>(buckets: Seq<Seq<(u64, V)>>, key: u64, value: V) -> Seq<
    Seq<(u64, V)>,
> {
    let b = key as int % buckets.len() as int;
    buckets.update(b, bucket_insert(buckets[b], key, value))
}

/// A size that a table can have: a power of two, at least two.
pub open spec fn is_table_size(size: usize) -> bool {
    size >= 2 && (size as u64) & ((size - 1) as u64) == 0
}

/// What `bucket_find` finds is an entry that holds the key, and no entry
/// before it does.
pub proof fn lemma_bucket_find<V>(bucket: Seq<(u64, V)>, key: u64, n: int)
    requires
        0 <= n <= bucket.len(),
    ensures
        match bucket_find(bucket, key, n) {
            Some(i) => 0 <= i < n && bucket[i].0 == key && forall|j: int|
                0 <= j < i ==> (#[trigger] bucket[j]).0 != key,
            None => forall|j: int| 0 <= j < n ==> (#[trigger] bucket[j]).0 != key,
        },
    decreases n,
{
    if n > 0 {
        lemma_bucket_find(bucket, key, n - 1);
    }
}

/// The first entry that holds the key is what `bucket_find` finds.
pub proof fn lemma_bucket_find_first<V>(bucket: Seq<(u64, V)>, key: u64, n: int, i: int)
    requires
        0 <= i < n <= bucket.len(),
        bucket[i].0 == key,
        forall|j: int| 0 <= j < i ==> (#[trigger] bucket[j]).0 != key,
    ensures
        bucket_find(bucket, key, n) == Some(i),
    decreases n,
{
    lemma_bucket_find(bucket, key, n - 1);
    if n - 1 > i {
        lemma_bucket_find_first(bucket, key, n - 1, i);
    }
}

/// A key that was just written into a bucket is found there with its value.
pub proof fn lemma_bucket_insert_same<V>(bucket: Seq<(u64, V)>, key: u64, value: V)
    requires
        bucket.len() <= BUCKET_SLOTS,
    ensures
        bucket_lookup(bucket_insert(bucket, key, value), key) == Some(value),
        bucket_insert(bucket, key, value).len() <= BUCKET_SLOTS,
        bucket_insert(bucket, key, value).len() >= bucket.len(),
{
    let after = bucket_insert(bucket, key, value);
    lemma_bucket_find(bucket, key, bucket.len() as int);
    let at = match bucket_find(bucket, key, bucket.len() as int) {
        Some(i) => i,
        None => if bucket.len() < BUCKET_SLOTS {
            bucket.len() as int
        } else {
            BUCKET_SLOTS - 1
        },
    };
    assert(after[at] == (key, value));
    assert forall|j: int| 0 <= j < at implies (#[trigger] after[j]).0 != key by {
        assert(after[j] == bucket[j]);
    }
    lemma_bucket_find_first(after, key, after.len() as int, at);
}

/// Writing one key leaves what a bucket answers for another key, unless the
/// bucket was full, did not hold the written key, and held the other key in
/// its last entry only: that entry is the one that leaves.
pub proof fn lemma_bucket_insert_other<V>(bucket: Seq<(u64, V)>, key: u64, value: V, other: u64)
    requires
        bucket.len() <= BUCKET_SLOTS,
        other != key,
    ensures
        bucket_lookup(bucket_insert(bucket, key, value), other) == bucket_lookup(bucket, other)
            || (bucket.len() == BUCKET_SLOTS && bucket_lookup(bucket, key) is None && bucket_find(
            bucket,
            other,
            bucket.len() as int,
        ) == Some(BUCKET_SLOTS - 1) && bucket_lookup(bucket_insert(bucket, key, value), other)
            is None),
{
    let after = bucket_insert(bucket, key, value);
    let n = bucket.len() as int;
    lemma_bucket_find(bucket, key, n);
    lemma_bucket_find(bucket, other, n);
    lemma_bucket_find(after, other, after.len() as int);
    match bucket_find(bucket, other, n) {
        Some(i) => {
            if after.len() > i && after[i] == bucket[i] {
                assert forall|j: int| 0 <= j < i implies (#[trigger] after[j]).0 != other by {
                    if after[j] != bucket[j] {
                        assert(after[j].0 == key);
                    }
                }
                lemma_bucket_find_first(after, other, after.len() as int, i);
            } else {
                assert(bucket_find(bucket, key, n) is None);
                assert(i == BUCKET_SLOTS - 1);
                assert forall|j: int| 0 <= j < after.len() implies (#[trigger] after[j]).0
                    != other by {
                    if j != i {
                        assert(after[j] == bucket[j]);
                    }
                }
            }
        },
        None => {
            assert forall|j: int| 0 <= j < after.len() implies (#[trigger] after[j]).0
                != other by {
                if j < n && after[j] == bucket[j] {
                } else {
                    assert(after[j].0 == key);
                }
            }
        },
    }
}

/// The half of a byte that holds the number of entries of a bucket: the high
/// half for an odd bucket, the low half for an even one.
pub open spec fn nibble(byte: u8, high: bool) -> u8 {
    if high {
        byte >> 4
    } else {
        byte & 0x0f
    }
}

/// A byte with one of its halves replaced by `count`.
pub open spec fn with_nibble(byte: u8, high: bool, count: u8) -> u8 {
    if high {
        (byte & 0x0f) | (count << 4)
    } else {
        (byte & 0xf0) | count
    }
}

proof fn lemma_nibble(byte: u8, high: bool, count: u8)
    requires
        count <= 15,
    ensures
        nibble(with_nibble(byte, high, count), high) == count,
        nibble(with_nibble(byte, high, count), !high) == nibble(byte, !high),
        nibble(0u8, high) == 0,
{
    assert(count <= 15 ==> (((byte & 0x0f) | (count << 4)) >> 4 == count && ((byte & 0x0f) | (count
        << 4)) & 0x0f == byte & 0x0f && ((byte & 0xf0) | count) & 0x0f == count && ((byte & 0xf0)
        | count) >> 4 == byte >> 4 && 0u8 >> 4 == 0 && 0u8 & 0x0f == 0)) by (bit_vector);
}

/// A transposition table: a fixed number of buckets of up to four entries,
/// keyed by a 64-bit hash. The bucket of a key is the key modulo the number of
/// buckets. How many entries of a bucket are live is kept in four bits, two
/// buckets to a byte; a slot that is not live is never read.
pub struct Tt<V> {
    occupancy: Vec<u8>,
    table: Vec<Option<(u64, V)>>,
}

impl<V: Copy> Tt<V> {
    /// The number of buckets.
    pub closed spec fn spec_len(&self) -> usize {
        (self.table.len() / BUCKET_SLOTS) as usize
    }

    /// How many entries of bucket `b` are live.
    pub closed spec fn count(&self, b: int) -> int {
        nibble(self.occupancy[b / 2], b % 2 == 1) as int
    }

    /// The invariant of the table: the sizes fit, no bucket holds more than
    /// four entries, and every live slot holds an entry.
    pub closed spec fn wf(&self) -> bool {
        &&& is_table_size(self.spec_len())
        &&& self.table.len() == self.spec_len() * BUCKET_SLOTS
        &&& self.occupancy.len() * 2 == self.spec_len()
        &&& forall|b: int|
            0 <= b < self.spec_len() ==> 0 <= #[trigger] self.count(b) <= BUCKET_SLOTS
        &&& forall|b: int, j: int|
            0 <= b < self.spec_len() && 0 <= j < self.count(b) ==> (#[trigger] self.table[b
                * BUCKET_SLOTS as int + j]) is Some
    }

    /// The live entries of bucket `b`, in the order of their slots.
    pub closed spec fn bucket(&self, b: int) -> Seq<(u64, V)> {
        Seq::new(self.count(b) as nat, |j: int| self.table[b * BUCKET_SLOTS as int + j].unwrap())
    }

    /// The buckets of the table.
    pub closed spec fn view(&self) -> Seq<Seq<(u64, V)>> {
        Seq::new(self.spec_len() as nat, |b: int| self.bucket(b))
    }

    /// What the table answers for `key`.
    pub open spec fn spec_fetch(&self, key: u64) -> Option<V> {
        table_fetch(self@, key)
    }

    /// A well-formed table has as many buckets as `len` says, none of them
    /// with more than four entries.
    pub proof fn lemma_view(&self)
        requires
            self.wf(),
        ensures
            self@.len() == self.spec_len(),
            is_table_size(self.spec_len()),
            forall|b: int| 0 <= b < self@.len() ==> (#[trigger] self@[b]).len() <= BUCKET_SLOTS,
    {
        assert forall|b: int| 0 <= b < self@.len() implies (#[trigger] self@[b]).len()
            <= BUCKET_SLOTS by {
            assert(self.count(b) <= BUCKET_SLOTS);
        }
    }

    /// An empty table of `size` buckets.
    pub fn new(size: usize) -> (tt: Self)
        requires
            is_table_size(size),
            size * BUCKET_SLOTS <= usize::MAX,
        ensures
            tt.wf(),
            tt.spec_len() == size,
            tt@ == Seq::new(size as nat, |b: int| Seq::<(u64, V)>::empty()),
            forall|key: u64| tt.spec_fetch(key) is None,
    {
        assert(size >= 2 && (size as u64) & ((size - 1) as u64) == 0 ==> size as u64 % 2 == 0)
            by (bit_vector);
        let empty: Option<(u64, V)> = None;
        let tt = Tt { occupancy: vec![0u8; size / 2], table: vec![empty; size * BUCKET_SLOTS] };
        proof {
            assert(tt.spec_len() == size);
            assert forall|b: int| 0 <= b < size implies #[trigger] tt.count(b) == 0 by {
                lemma_nibble(0u8, b % 2 == 1, 0u8);
            }
            assert(tt@ =~~= Seq::new(size as nat, |b: int| Seq::<(u64, V)>::empty()));
            assert forall|key: u64| tt.spec_fetch(key) is None by {
                let b = key as int % size as int;
                assert(tt@[b].len() == 0);
            }
        }
        tt
    }

    /// The number of buckets.
    #[verifier::when_used_as_spec(spec_len)]
    pub fn len(&self) -> (n: usize)
        ensures
            n == self.spec_len(),
    {
        self.table.len() / BUCKET_SLOTS
    }

    fn live(&self, b: usize) -> (n: usize)
        requires
            self.wf(),
            b < self.spec_len(),
        ensures
            n == self.count(b as int),
            n <= BUCKET_SLOTS,
    {
        let byte: u8 = self.occupancy[b / 2];
        let n: u8 = if b % 2 == 1 {
            byte >> 4
        } else {
            byte & 0x0f
        };
        assert(self.count(b as int) <= BUCKET_SLOTS);
        n as usize
    }

    /// The value that the table holds for `key`, if it holds one.
    pub fn fetch(&self, key: u64) -> (found: Option<V>)
        requires
            self.wf(),
        ensures
            found == self.spec_fetch(key),
    {
        let size: usize = self.len();
        let b: usize = (key % size as u64) as usize;
        let n: usize = self.live(b);
        let ghost bucket = self.bucket(b as int);
        assert(self@[b as int] == bucket);
        let mut j: usize = 0;
        while j < n
            invariant
                self.wf(),
                b < self.spec_len(),
                n == self.count(b as int),
                n <= BUCKET_SLOTS,
                j <= n,
                bucket == self.bucket(b as int),
                bucket.len() == n,
                self.spec_fetch(key) == bucket_lookup(bucket, key),
                bucket_find(bucket, key, j as int) is None,
            decreases n - j,
        {
            assert(self.table[b * BUCKET_SLOTS as int + j] is Some);
            assert(bucket[j as int] == self.table[b * BUCKET_SLOTS as int + j].unwrap());
            match self.table[b * BUCKET_SLOTS + j] {
                Some((k, v)) => {
                    if k == key {
                        proof {
                            lemma_bucket_find(bucket, key, j as int);
                            lemma_bucket_find_first(bucket, key, n as int, j as int);
                            assert(bucket[j as int].1 == v);
                        }
                        return Some(v);
                    }
                },
                None => {},
            }
            j += 1;
        }
        None
    }

    /// Writes `value` for `key`. An entry for the key is overwritten where it
    /// is; otherwise the entry is appended to its bucket, or replaces the
    /// fourth entry of a full bucket. No other bucket changes.
    pub fn insert(&mut self, key: u64, value: V)
        requires
            old(self).wf(),
        ensures
            final(self).wf(),
            final(self).spec_len() == old(self).spec_len(),
            final(self)@ == table_insert(old(self)@, key, value),
            final(self).spec_fetch(key) == Some(value),
    {
        let size: usize = self.len();
        let b: usize = (key % size as u64) as usize;
        let n: usize = self.live(b);
        let ghost bucket = self.bucket(b as int);
        let ghost before = *self;
        proof {
            self.lemma_view();
            lemma_bucket_insert_same(bucket, key, value);
        }
        let mut at: usize = n;
        let mut j: usize = 0;
        while j < n
            invariant
                *self == before,
                self.wf(),
                b < self.spec_len(),
                n == self.count(b as int),
                n <= BUCKET_SLOTS,
                j <= n,
                bucket == self.bucket(b as int),
                at == n ==> bucket_find(bucket, key, j as int) is None,
                at != n ==> at < n && bucket_find(bucket, key, n as int) == Some(at as int),
            decreases n - j,
        {
            assert(self.table[b * BUCKET_SLOTS as int + j] is Some);
            assert(bucket[j as int] == self.table[b * BUCKET_SLOTS as int + j].unwrap());
            if at == n {
                match self.table[b * BUCKET_SLOTS + j] {
                    Some((k, _)) => {
                        if k == key {
                            proof {
                                lemma_bucket_find(bucket, key, j as int);
                                lemma_bucket_find_first(bucket, key, n as int, j as int);
                            }
                            at = j;
                        }
                    },
                    None => {},
                }
            }
            j += 1;
        }
        let grows: bool = at == n && n < BUCKET_SLOTS;
        if at == n && n == BUCKET_SLOTS {
            at = BUCKET_SLOTS - 1;
        }
        self.table.set(b * BUCKET_SLOTS + at, Some((key, value)));
        if grows {
            let byte: u8 = self.occupancy[b / 2];
            let count: u8 = (n + 1) as u8;
            let updated: u8 = if b % 2 == 1 {
                (byte & 0x0f) | (count << 4)
            } else {
                (byte & 0xf0) | count
            };
            self.occupancy.set(b / 2, updated);
            proof {
                lemma_nibble(byte, b % 2 == 1, count);
            }
        }
        proof {
            let after = bucket_insert(bucket, key, value);
            assert(final(self).spec_len() == before.spec_len());
            assert forall|c: int| 0 <= c < size implies #[trigger] self.count(c) == (if c == b {
                after.len() as int
            } else {
                before.count(c)
            }) by {
                if grows && c / 2 == b / 2 {
                    lemma_nibble(before.occupancy[(b / 2) as int], b % 2 == 1, (n + 1) as u8);
                }
            }
            assert forall|c: int, i: int| 0 <= c < size && 0 <= i < self.count(c) implies (
            #[trigger] self.table[c * BUCKET_SLOTS as int + i]) is Some by {
                assert(before.count(c) <= BUCKET_SLOTS);
                if c * BUCKET_SLOTS as int + i != b * BUCKET_SLOTS as int + at {
                    assert(c != b || i < n);
                    assert(before.table[c * BUCKET_SLOTS as int + i] is Some);
                }
            }
            assert(self.wf());
            assert forall|c: int| 0 <= c < size implies #[trigger] self.bucket(c) == (if c == b {
                after
            } else {
                before.bucket(c)
            }) by {
                assert(before.count(c) <= BUCKET_SLOTS);
                if c == b {
                    assert(self.bucket(c) =~= after);
                } else {
                    assert(self.bucket(c) =~= before.bucket(c));
                }
            }
            assert(self@ =~= table_insert(before@, key, value));
        }
    }

    /// Empties the table: every bucket's count goes back to zero, and the
    /// slots keep what they held, unread.
    pub fn clear(&mut self)
        requires
            old(self).wf(),
        ensures
            final(self).wf(),
            final(self).spec_len() == old(self).spec_len(),
            final(self)@ == Seq::new(old(self).spec_len() as nat, |b: int| Seq::<(u64, V)>::empty()),
            forall|key: u64| final(self).spec_fetch(key) is None,
    {
        let n: usize = self.occupancy.len();
        let ghost before = *self;
        let mut i: usize = 0;
        while i < n
            invariant
                n == self.occupancy.len(),
                self.occupancy.len() == before.occupancy.len(),
                self.table == before.table,
                before.wf(),
                i <= n,
                forall|k: int| 0 <= k < i ==> self.occupancy[k] == 0,
            decreases n - i,
        {
            self.occupancy.set(i, 0u8);
            i += 1;
        }
        proof {
            let size = before.spec_len();
            assert(self.spec_len() == size);
            assert forall|b: int| 0 <= b < size implies #[trigger] self.count(b) == 0 by {
                lemma_nibble(0u8, b % 2 == 1, 0u8);
            }
            assert(self@ =~~= Seq::new(size as nat, |b: int| Seq::<(u64, V)>::empty()));
            assert forall|key: u64| self.spec_fetch(key) is None by {
                let b = key as int % size as int;
                assert(self@[b].len() == 0);
            }
        }
    }
}

/// What a table answers for a key right after the key was written is the
/// value that was written.
pub proof fn lemma_fetch_after_insert<V>(buckets: Seq<Seq<(u64, V)>>, key: u64, value: V)
    requires
        buckets.len() > 0,
        forall|b: int| 0 <= b < buckets.len() ==> (#[trigger] buckets[b]).len() <= BUCKET_SLOTS,
    ensures
        table_fetch(table_insert(buckets, key, value), key) == Some(value),
{
    let b = key as int % buckets.len() as int;
    lemma_bucket_insert_same(buckets[b], key, value);
}

/// Writing one key leaves the answer for every other key as it was, unless
/// the two meet in one full bucket that did not hold the written key and held
/// the other key in its last entry: then the other key is no longer found.
pub proof fn lemma_fetch_other_after_insert<V>(
    buckets: Seq<Seq<(u64, V)>>,
    key: u64,
    value: V,
    other: u64,
)
    requires
        buckets.len() > 0,
        forall|b: int| 0 <= b < buckets.len() ==> (#[trigger] buckets[b]).len() <= BUCKET_SLOTS,
        other != key,
    ensures
        table_fetch(table_insert(buckets, key, value), other) == table_fetch(buckets, other) || (
        key as int % buckets.len() as int == other as int % buckets.len() as int && table_fetch(
            buckets,
            key,
        ) is None && table_fetch(table_insert(buckets, key, value), other) is None),
{
    let b = key as int % buckets.len() as int;
    let c = other as int % buckets.len() as int;
    if b == c {
        lemma_bucket_insert_other(buckets[b], key, value, other);
    }
}

/// The table of the prover: a proof number and a disproof number per position.
pub type DfPnTable = Tt<(u32, u32)>;

} // verus!
