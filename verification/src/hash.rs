//! A string-keyed lookup table that accepts both `String` and `str` as key:
//! two keys are the same exactly when their text is the same. Entries live in
//! a fixed number of buckets; a key's bucket is a deterministic hash of a
//! per-table random seed and the key's bytes, mapped into the bucket range by
//! integer division of the hash space. The table's view is the map from key
//! text to value.

use std::collections::hash_map::DefaultHasher;
use std::hash::BuildHasher;
use std::hash::Hasher;
use vstd::prelude::*;

verus! {

use vstd::std_specs::hash::DefaultHasherAdditionalSpecFns;
use vstd::string::StrSliceExecFns;
use vstd::string::StringSliceAdditionalSpecFns;

/// The little-endian bytes of a table's seed, as fed to the hasher.
pub closed spec fn seed_bytes(seed: u64) -> Seq<u8> {
    Seq::new(8, |i: int| ((seed >> ((8 * i) as u64)) & 0xff) as u8)
}

/// The hash of a key under a seed: a pure function of both, so that one
/// table always sends one key to one bucket.
pub closed spec fn spec_hash(seed: u64, key: Seq<char>) -> u64 {
    DefaultHasher::spec_finish(seq![seed_bytes(seed), vstd::utf8::encode_utf8(key)])
}

/// Maps a hash value uniformly into `0 .. len` by dividing the hash space
/// into `len` equal slices (the last slice absorbs the remainder).
pub closed spec fn spec_distribute(u: u64, len: u64) -> int {
    if len == 0 {
        0
    } else {
        let r = u64::MAX as int / len as int;
        let q = u as int / r;
        if q >= len {
            len - 1
        } else {
            q
        }
    }
}

/// The bucket index always lands inside the bucket range.
pub proof fn lemma_distribute_in_range(u: u64, len: u64)
    requires
        len >= 1,
    ensures
        0 <= spec_distribute(u, len) < len,
{
    assert(u64::MAX as int / len as int >= 1) by (nonlinear_arith)
        requires
            1 <= len <= u64::MAX,
    ;
    let r = u64::MAX as int / len as int;
    assert(u as int / r >= 0) by (nonlinear_arith)
        requires
            u >= 0,
            r >= 1,
    ;
}

/// Whether some entry of a bucket has the given key text.
pub open spec fn bucket_has<V>(b: Seq<(String, V)>, k: Seq<char>) -> bool {
    exists|i: int| 0 <= i < b.len() && b[i].0@ == k
}

/// The position of the entry with the given key text.
pub open spec fn bucket_idx<V>(b: Seq<(String, V)>, k: Seq<char>) -> int {
    choose|i: int| 0 <= i < b.len() && b[i].0@ == k
}

/// The value stored under the given key text, if any.
pub open spec fn bucket_get<V>(b: Seq<(String, V)>, k: Seq<char>) -> Option<V> {
    if bucket_has(b, k) {
        Some(b[bucket_idx(b, k)].1)
    } else {
        None
    }
}

/// No two entries of the bucket share their key text.
pub open spec fn bucket_distinct<V>(b: Seq<(String, V)>) -> bool {
    forall|i: int, j: int| 0 <= i < j < b.len() ==> b[i].0@ != b[j].0@
}

/// With distinct keys, the entry that matches determines the lookup result.
proof fn lemma_bucket_get_at<V>(b: Seq<(String, V)>, k: Seq<char>, i: int)
    requires
        bucket_distinct(b),
        0 <= i < b.len(),
        b[i].0@ == k,
    ensures
        bucket_get(b, k) == Some(b[i].1),
{
    assert(bucket_has(b, k));
    let j = bucket_idx(b, k);
    assert(0 <= j < b.len() && b[j].0@ == k);
    if i != j {
        assert(false);
    }
}

/// A map from string keys to values of type `V`. Keys with the same text are
/// the same key, whether handed in as `String` or as `str`.
pub struct SSMap<V> {
    /// The per-table random seed that the bucket placement hashes in.
    pub seed: u64,
    /// The number of buckets, equal to `table.len()`.
    pub table_len: u64,
    /// The buckets; exposed so that the placement of entries is observable.
    pub table: Vec<Vec<(String, V)>>,
}

/// Relies on std::collections::hash_map::RandomState and Hasher::finish:
/// a per-process randomly seeded hasher state, read once to seed a table.
/// Nothing is promised of the value.
#[verifier::external_body]
fn random_seed() -> u64 {
    std::collections::hash_map::RandomState::new().build_hasher().finish()
}

impl<V> SSMap<V> {
    /// The bucket that the given key text belongs to.
    pub closed spec fn bucket_of(self, k: Seq<char>) -> int {
        spec_distribute(spec_hash(self.seed, k), self.table_len)
    }

    /// The value stored under the given key text, if any.
    pub closed spec fn spec_get(self, k: Seq<char>) -> Option<V> {
        bucket_get(self.table@[self.bucket_of(k)]@, k)
    }

    /// Structural soundness: at least one bucket, the recorded length is the
    /// real one, every entry sits in its key's bucket, and no bucket holds
    /// one key text twice.
    pub closed spec fn wf(self) -> bool {
        &&& self.table_len >= 1
        &&& self.table@.len() == self.table_len
        &&& forall|b: int, i: int|
            0 <= b < self.table@.len() && 0 <= i < self.table@[b]@.len()
                ==> #[trigger] self.bucket_of(self.table@[b]@[i].0@) == b
        &&& forall|b: int| 0 <= b < self.table@.len() ==> bucket_distinct(#[trigger] self.table@[b]@)
    }

    /// The table as the map it represents.
    pub closed spec fn view(self) -> Map<Seq<char>, V> {
        Map::new(
            |k: Seq<char>| self.spec_get(k) is Some,
            |k: Seq<char>| self.spec_get(k).unwrap(),
        )
    }

    /// An empty table with 1000 buckets.
    pub fn new() -> (r: SSMap<V>)
        ensures
            r.wf(),
            r@ == Map::<Seq<char>, V>::empty(),
    {
        Self::with_capacity(1000)
    }

    /// An empty table with the given number of buckets.
    pub fn with_capacity(size: usize) -> (r: SSMap<V>)
        requires
            size >= 1,
        ensures
            r.wf(),
            r@ == Map::<Seq<char>, V>::empty(),
    {
        let mut table: Vec<Vec<(String, V)>> = Vec::new();
        let mut i: usize = 0;
        while i < size
            invariant
                i <= size,
                table@.len() == i,
                forall|b: int| 0 <= b < i ==> #[trigger] table@[b]@.len() == 0,
            decreases size - i,
        {
            table.push(Vec::new());
            i += 1;
        }
        let r = SSMap { seed: random_seed(), table_len: size as u64, table };
        assert forall|k: Seq<char>| !(r.spec_get(k) is Some) by {
            if 0 <= r.bucket_of(k) < r.table@.len() {
                assert(!bucket_has(r.table@[r.bucket_of(k)]@, k));
            }
        }
        assert(r@ =~= Map::<Seq<char>, V>::empty());
        r
    }

    /// Maps a hash value into the bucket range; see `spec_distribute`.
    fn distribute(&self, u: u64) -> (r: usize)
        requires
            self.wf(),
        ensures
            r == spec_distribute(u, self.table_len),
            r < self.table@.len(),
    {
        let n = self.table.len();
        let r = u64::MAX / self.table_len;
        assert(r >= 1) by {
            assert(u64::MAX as int / self.table_len as int >= 1) by (nonlinear_arith)
                requires
                    1 <= self.table_len <= u64::MAX,
            ;
        };
        let q = u / r;
        if q >= self.table_len {
            n - 1
        } else {
            q as usize
        }
    }

    /// The bucket index of a key given as `str`.
    pub fn hash_str(&self, s: &str) -> (r: usize)
        requires
            self.wf(),
        ensures
            r == self.bucket_of(s@),
            r < self.table@.len(),
    {
        let mut sb: Vec<u8> = Vec::new();
        let mut i: usize = 0;
        while i < 8
            invariant
                i <= 8,
                sb@.len() == i,
                forall|j: int|
                    0 <= j < i ==> sb@[j] == ((self.seed >> ((8 * j) as u64)) & 0xff) as u8,
            decreases 8 - i,
        {
            sb.push(((self.seed >> ((8 * i) as u64)) & 0xff) as u8);
            i += 1;
        }
        assert(sb@ =~= seed_bytes(self.seed));
        let mut hasher = DefaultHasher::new();
        hasher.write(sb.as_slice());
        hasher.write(s.as_bytes());
        let h = hasher.finish();
        assert(hasher@ =~= seq![seed_bytes(self.seed), vstd::utf8::encode_utf8(s@)]);
        self.distribute(h)
    }

    /// The bucket index of a key given as `String`.
    pub fn hash_string(&self, s: &String) -> (r: usize)
        requires
            self.wf(),
        ensures
            r == self.bucket_of(s@),
            r < self.table@.len(),
    {
        self.hash_str(s.as_str())
    }

    /// Looks a key up in its bucket: a single entry is tried directly, a
    /// longer bucket is scanned.
    fn get_from_hashv(&self, hv: usize, k: &str) -> (r: Option<&V>)
        requires
            self.wf(),
            hv == self.bucket_of(k@),
        ensures
            match r {
                Some(v) => self@.contains_key(k@) && *v == self@[k@],
                None => !self@.contains_key(k@),
            },
    {
        let ghost bseq = self.table@[hv as int]@;
        let bucket = &self.table[hv];
        if bucket.len() == 1 {
            if str_eq_str(bucket[0].0.as_str(), k) {
                proof {
                    lemma_bucket_get_at(bseq, k@, 0);
                }
                return Some(&bucket[0].1);
            }
            assert(!bucket_has(bseq, k@));
            return None;
        }
        let mut i: usize = 0;
        while i < bucket.len()
            invariant
                self.wf(),
                hv == self.bucket_of(k@),
                hv < self.table@.len(),
                bseq == self.table@[hv as int]@,
                bucket == &self.table@[hv as int],
                i <= bseq.len(),
                forall|j: int| 0 <= j < i ==> bseq[j].0@ != k@,
            decreases bucket.len() - i,
        {
            if str_eq_str(bucket[i].0.as_str(), k) {
                proof {
                    lemma_bucket_get_at(bseq, k@, i as int);
                }
                return Some(&bucket[i].1);
            }
            i += 1;
        }
        assert(!bucket_has(bseq, k@));
        None
    }

    /// Looks up a key given as `str`.
    pub fn get_from_str(&self, k: &str) -> (r: Option<&V>)
        requires
            self.wf(),
        ensures
            match r {
                Some(v) => self@.contains_key(k@) && *v == self@[k@],
                None => !self@.contains_key(k@),
            },
    {
        let hv = self.hash_str(k);
        self.get_from_hashv(hv, k)
    }

    /// Looks up a key given as `String`.
    pub fn get_from_string(&self, k: &String) -> (r: Option<&V>)
        requires
            self.wf(),
        ensures
            match r {
                Some(v) => self@.contains_key(k@) && *v == self@[k@],
                None => !self@.contains_key(k@),
            },
    {
        let hv = self.hash_str(k.as_str());
        self.get_from_hashv(hv, k.as_str())
    }

    /// Whether a key given as `str` is present.
    pub fn contains_key_with_str(&self, k: &str) -> (r: bool)
        requires
            self.wf(),
        ensures
            r == self@.contains_key(k@),
    {
        self.get_from_str(k).is_some()
    }

    /// Whether a key given as `String` is present.
    pub fn contains_key_with_string(&self, k: &String) -> (r: bool)
        requires
            self.wf(),
        ensures
            r == self@.contains_key(k@),
    {
        self.get_from_string(k).is_some()
    }

    /// How a table looks after the entry of key `k` had its value replaced by
    /// `v` in place: the same buckets, except that `k`'s entry holds `v`.
    pub open spec fn updated_at_key(pre: SSMap<V>, post: SSMap<V>, k: Seq<char>, v: V) -> bool {
        let b = pre.bucket_of(k);
        let ob = pre.table@[b]@;
        let i = bucket_idx(ob, k);
        &&& post.seed == pre.seed
        &&& post.table_len == pre.table_len
        &&& post.table@ == pre.table@.update(b, post.table@[b])
        &&& post.table@[b]@ == ob.update(i, (ob[i].0, v))
    }

    /// Replacing a present key's value in place is exactly `insert` on the
    /// map view.
    pub proof fn lemma_updated_at_key(pre: SSMap<V>, post: SSMap<V>, k: Seq<char>, v: V)
        requires
            pre.wf(),
            pre@.contains_key(k),
            Self::updated_at_key(pre, post, k, v),
        ensures
            post.wf(),
            post@ == pre@.insert(k, v),
    {
        let b = pre.bucket_of(k);
        lemma_distribute_in_range(spec_hash(pre.seed, k), pre.table_len);
        let ob = pre.table@[b]@;
        assert(pre.spec_get(k) is Some);
        assert(bucket_has(ob, k));
        let i = bucket_idx(ob, k);
        assert(0 <= i < ob.len() && ob[i].0@ == k);
        post.lemma_after_bucket_update(pre, b, k, v, ob, post.table@[b]@, i, true);
    }

    /// Finds the entry of a key in its bucket and hands out its value for
    /// writing; the rest of the table is untouched.
    fn get_mut_from_hashv(&mut self, hv: usize, k: &str) -> (r: Option<&mut V>)
        requires
            old(self).wf(),
            hv == old(self).bucket_of(k@),
            hv < old(self).table@.len(),
        ensures
            match r {
                Some(v) => old(self)@.contains_key(k@) && *v == old(self)@[k@]
                    && Self::updated_at_key(*old(self), *final(self), k@, *final(v)),
                None => !old(self)@.contains_key(k@) && *final(self) == *old(self),
            },
    {
        let ghost bseq = self.table@[hv as int]@;
        let mut i: usize = 0;
        let mut found: bool = false;
        let n = self.table[hv].len();
        while i < n
            invariant
                self.wf(),
                hv < self.table@.len(),
                n == bseq.len(),
                bseq == self.table@[hv as int]@,
                i <= n,
                !found ==> forall|j: int| 0 <= j < i ==> bseq[j].0@ != k@,
                found ==> 0 <= i < n && bseq[i as int].0@ == k@,
            ensures
                self.wf(),
                hv < self.table@.len(),
                bseq == self.table@[hv as int]@,
                !found ==> forall|j: int| 0 <= j < bseq.len() ==> bseq[j].0@ != k@,
                found ==> 0 <= i < bseq.len() && bseq[i as int].0@ == k@,
            decreases n - i,
        {
            if str_eq_str(self.table[hv][i].0.as_str(), k) {
                found = true;
                break;
            }
            i += 1;
        }
        if found {
            proof {
                lemma_bucket_get_at(bseq, k@, i as int);
                assert(bucket_idx(bseq, k@) == i as int) by {
                    let j = bucket_idx(bseq, k@);
                    assert(0 <= j < bseq.len() && bseq[j].0@ == k@);
                }
            }
            let b_ref = &mut self.table[hv];
            let e = &mut b_ref[i];
            Some(&mut e.1)
        } else {
            assert(!bucket_has(bseq, k@));
            None
        }
    }

    /// Hands out the value under a key given as `str` for writing.
    pub fn get_mut_from_str(&mut self, k: &str) -> (r: Option<&mut V>)
        requires
            old(self).wf(),
        ensures
            match r {
                Some(v) => old(self)@.contains_key(k@) && *v == old(self)@[k@]
                    && Self::updated_at_key(*old(self), *final(self), k@, *final(v)),
                None => !old(self)@.contains_key(k@) && *final(self) == *old(self),
            },
    {
        let hv = self.hash_str(k);
        self.get_mut_from_hashv(hv, k)
    }

    /// Hands out the value under a key given as `String` for writing.
    pub fn get_mut_from_string(&mut self, k: &String) -> (r: Option<&mut V>)
        requires
            old(self).wf(),
        ensures
            match r {
                Some(v) => old(self)@.contains_key(k@) && *v == old(self)@[k@]
                    && Self::updated_at_key(*old(self), *final(self), k@, *final(v)),
                None => !old(self)@.contains_key(k@) && *final(self) == *old(self),
            },
    {
        let hv = self.hash_str(k.as_str());
        self.get_mut_from_hashv(hv, k.as_str())
    }

    /// Stores a value under a key given as `str`: a present key keeps its
    /// place and gets the new value, an absent key is appended to its bucket.
    pub fn insert_with_str(&mut self, k: &str, v: V)
        requires
            old(self).wf(),
        ensures
            final(self).wf(),
            final(self)@ == old(self)@.insert(k@, v),
            final(self).seed == old(self).seed,
            final(self).table_len == old(self).table_len,
    {
        let hv = self.hash_str(k);
        let ghost old_tab = self.table@;
        let ghost old_b = self.table@[hv as int]@;
        let mut bucket: Vec<(String, V)> = Vec::new();
        core::mem::swap(&mut self.table[hv], &mut bucket);
        let mut i: usize = 0;
        let mut found: bool = false;
        while i < bucket.len()
            invariant
                bucket@ == old_b,
                i <= old_b.len(),
                !found ==> forall|j: int| 0 <= j < i ==> old_b[j].0@ != k@,
                found ==> 0 <= i < old_b.len() && old_b[i as int].0@ == k@,
            ensures
                bucket@ == old_b,
                !found ==> i == old_b.len() && forall|j: int|
                    0 <= j < old_b.len() ==> old_b[j].0@ != k@,
                found ==> 0 <= i < old_b.len() && old_b[i as int].0@ == k@,
            decreases old_b.len() - i,
        {
            if str_eq_str(bucket[i].0.as_str(), k) {
                found = true;
                break;
            }
            i += 1;
        }
        if found {
            let e = &mut bucket[i];
            e.1 = v;
        } else {
            bucket.push((k.to_owned(), v));
        }
        let ghost new_b = bucket@;
        core::mem::swap(&mut self.table[hv], &mut bucket);
        assert(self.table@ =~= old_tab.update(hv as int, self.table@[hv as int]));
        proof {
            self.lemma_after_bucket_update(
                *old(self),
                hv as int,
                k@,
                v,
                old_b,
                new_b,
                i as int,
                found,
            );
        }
    }

    /// Stores a value under a key given as `String`; same contract as
    /// `insert_with_str`.
    pub fn insert_with_string(&mut self, k: &String, v: V)
        requires
            old(self).wf(),
        ensures
            final(self).wf(),
            final(self)@ == old(self)@.insert(k@, v),
            final(self).seed == old(self).seed,
            final(self).table_len == old(self).table_len,
    {
        self.insert_with_str(k.as_str(), v)
    }

    /// After one bucket was rewritten as the insert loop does, the table is
    /// well formed again and its view gained exactly the one binding.
    proof fn lemma_after_bucket_update(
        self,
        old_self: SSMap<V>,
        hv: int,
        k: Seq<char>,
        v: V,
        old_b: Seq<(String, V)>,
        new_b: Seq<(String, V)>,
        i: int,
        found: bool,
    )
        requires
            old_self.wf(),
            self.seed == old_self.seed,
            self.table_len == old_self.table_len,
            0 <= hv < old_self.table@.len(),
            hv == old_self.bucket_of(k),
            old_b == old_self.table@[hv]@,
            self.table@ == old_self.table@.update(hv, self.table@[hv]),
            new_b == self.table@[hv]@,
            found ==> 0 <= i < old_b.len() && old_b[i].0@ == k && new_b == old_b.update(
                i,
                (old_b[i].0, v),
            ),
            !found ==> new_b.len() == old_b.len() + 1 && (forall|j: int|
                0 <= j < old_b.len() ==> old_b[j].0@ != k && new_b[j] == old_b[j])
                && new_b[old_b.len() as int].0@ == k && new_b[old_b.len() as int].1 == v,
        ensures
            self.wf(),
            self@ == old_self@.insert(k, v),
    {
        let pos: int = if found {
            i
        } else {
            old_b.len() as int
        };
        assert(new_b[pos].0@ == k && new_b[pos].1 == v);
        assert forall|j: int| 0 <= j < new_b.len() && j != pos implies new_b[j]
            == old_b[j] by {}
        // every key sits in its own bucket, and the same bucket as before
        assert forall|x: Seq<char>| #[trigger] self.bucket_of(x) == old_self.bucket_of(x) by {}
        assert forall|b: int, j: int|
            0 <= b < self.table@.len() && 0 <= j < self.table@[b]@.len() implies #[trigger] self
            .bucket_of(self.table@[b]@[j].0@) == b by {
            if b != hv {
                assert(self.table@[b] == old_self.table@[b]);
                assert(old_self.bucket_of(old_self.table@[b]@[j].0@) == b);
            } else {
                if j == pos {
                    assert(new_b[j].0@ == k);
                } else {
                    assert(new_b[j] == old_b[j]);
                    assert(old_self.bucket_of(old_b[j].0@) == hv);
                }
            }
        }
        // distinctness is kept
        assert forall|b: int| 0 <= b < self.table@.len() implies bucket_distinct(
            #[trigger] self.table@[b]@,
        ) by {
            if b != hv {
                assert(self.table@[b] == old_self.table@[b]);
                assert(bucket_distinct(old_self.table@[b]@));
            } else {
                assert(bucket_distinct(old_b));
                assert forall|j1: int, j2: int| 0 <= j1 < j2 < new_b.len() implies new_b[j1].0@
                    != new_b[j2].0@ by {
                    if j1 == pos {
                        assert(new_b[j2] == old_b[j2]);
                        if found {
                            assert(new_b[j2].0@ != k);
                        } else {
                            assert(j2 < old_b.len() || j2 == pos);
                        }
                    } else if j2 == pos {
                        assert(new_b[j1] == old_b[j1]);
                        if found {
                            assert(old_b[j1].0@ != old_b[i].0@);
                        }
                    } else {
                        assert(new_b[j1] == old_b[j1] && new_b[j2] == old_b[j2]);
                    }
                }
            }
        }
        assert(self.wf());
        // the view gained exactly the one binding
        assert forall|k2: Seq<char>| true implies #[trigger] self.spec_get(k2) == (
        if k2 == k {
            Some(v)
        } else {
            old_self.spec_get(k2)
        }) by {
            if self.bucket_of(k2) != hv {
                lemma_distribute_in_range(spec_hash(self.seed, k2), self.table_len);
                assert(self.table@[self.bucket_of(k2)] == old_self.table@[old_self.bucket_of(k2)]);
                assert(k2 != k);
            } else {
                if k2 == k {
                    lemma_bucket_get_at(new_b, k, pos);
                } else {
                    if bucket_has(old_b, k2) {
                        let j = bucket_idx(old_b, k2);
                        assert(0 <= j < old_b.len() && old_b[j].0@ == k2);
                        assert(j != pos);
                        lemma_bucket_get_at(old_b, k2, j);
                        lemma_bucket_get_at(new_b, k2, j);
                    } else {
                        assert forall|j: int| 0 <= j < new_b.len() implies #[trigger] new_b[j].0@
                            != k2 by {
                            if j == pos {
                            } else {
                                assert(new_b[j] == old_b[j]);
                            }
                        }
                        assert(!bucket_has(new_b, k2));
                        assert(!bucket_has(old_b, k2));
                    }
                }
            }
        }
        assert forall|k2: Seq<char>| #[trigger] self@.contains_key(k2) == old_self@.insert(
            k,
            v,
        ).contains_key(k2) && (self@.contains_key(k2) ==> self@[k2] == old_self@.insert(k, v)[k2]) by {
            assert(self.spec_get(k2) == (if k2 == k {
                Some(v)
            } else {
                old_self.spec_get(k2)
            }));
        }
        assert(self@ =~= old_self@.insert(k, v));
    }

    /// The value under a present key; see `get_from_str` for the lookup.
    pub fn index(&self, k: &str) -> (r: &V)
        requires
            self.wf(),
            self@.contains_key(k@),
        ensures
            *r == self@[k@],
    {
        match self.get_from_str(k) {
            Some(v) => v,
            None => vstd::pervasive::unreached(),
        }
    }
}

/// Character-for-character equality of two string slices.
fn str_eq_str(a: &str, b: &str) -> (r: bool)
    ensures
        r == (a@ == b@),
{
    let n = a.unicode_len();
    if n != b.unicode_len() {
        return false;
    }
    let mut i: usize = 0;
    while i < n
        invariant
            n == a@.len(),
            n == b@.len(),
            i <= n,
            forall|j: int| 0 <= j < i ==> a@[j] == b@[j],
        decreases n - i,
    {
        if a.get_char(i) != b.get_char(i) {
            return false;
        }
        i += 1;
    }
    assert(a@ =~= b@);
    true
}

} // verus!
