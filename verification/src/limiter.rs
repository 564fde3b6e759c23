use vstd::prelude::*;

verus! {

/// The refill window: a bucket regains its full quota over one minute.
pub const WINDOW_MS: u64 = 60000;

/// Admissions allowed per identity per window.
pub const QUOTA: u64 = 20;

/// Credit one admission spends, in milliseconds of refill: the window divided
/// by the quota, so refill is continuous rather than a hard reset at window
/// boundaries.
pub const COST_MS: u64 = 3000;

/// One caller's admission state. `credit_ms` is the refill credit on hand,
/// measured in milliseconds: it grows one-for-one with elapsed time up to
/// `WINDOW_MS`, and each admission spends `COST_MS` of it.
#[derive(Clone, Copy, PartialEq, Eq, Structural, Debug)]
pub struct TokenBucket {
    pub credit_ms: u64,
    pub last_ms: u64,
}

pub open spec fn bucket_wf(b: TokenBucket) -> bool {
    b.credit_ms <= WINDOW_MS
}

/// A bucket made on first use: full quota, measured from `now`.
pub open spec fn full_bucket(now: u64) -> TokenBucket {
    TokenBucket { credit_ms: WINDOW_MS, last_ms: now }
}

/// Credit the time elapsed since the last update, capped at the window. A
/// clock reading at or before the last update credits nothing and moves
/// nothing.
pub open spec fn refill_spec(b: TokenBucket, now: u64) -> TokenBucket {
    if now <= b.last_ms {
        b
    } else if now - b.last_ms >= WINDOW_MS - b.credit_ms {
        TokenBucket { credit_ms: WINDOW_MS, last_ms: now }
    } else {
        TokenBucket { credit_ms: (b.credit_ms + (now - b.last_ms)) as u64, last_ms: now }
    }
}

/// One admission attempt at clock reading `now`: refill, then admit and spend
/// `COST_MS` if the credit covers it, else deny and change nothing further.
pub open spec fn step_spec(b: TokenBucket, now: u64) -> (TokenBucket, bool) {
    let rb = refill_spec(b, now);
    if rb.credit_ms >= COST_MS {
        (TokenBucket { credit_ms: (rb.credit_ms - COST_MS) as u64, last_ms: rb.last_ms }, true)
    } else {
        (rb, false)
    }
}

/// One admission attempt on a bucket, exactly `step_spec`.
pub fn bucket_admit(b: &mut TokenBucket, now: u64) -> (r: bool)
    requires
        bucket_wf(*old(b)),
    ensures
        bucket_wf(*final(b)),
        (*final(b), r) == step_spec(*old(b), now),
{
    if now > b.last_ms {
        let elapsed: u64 = now - b.last_ms;
        if elapsed >= WINDOW_MS - b.credit_ms {
            b.credit_ms = WINDOW_MS;
        } else {
            b.credit_ms = b.credit_ms + elapsed;
        }
        b.last_ms = now;
    }
    if b.credit_ms >= COST_MS {
        b.credit_ms = b.credit_ms - COST_MS;
        true
    } else {
        false
    }
}

/// The keyed admission gate: one independent token bucket per caller
/// identity, created lazily on first use and kept for the process lifetime.
/// Identities are the bytes of the designated request header value.
pub struct RateLimiter {
    ids: Vec<Vec<u8>>,
    buckets: Vec<TokenBucket>,
}

impl RateLimiter {
    pub closed spec fn ids_view(self) -> Seq<Seq<u8>> {
        self.ids@.map_values(|v: Vec<u8>| v@)
    }

    pub closed spec fn buckets_view(self) -> Seq<TokenBucket> {
        self.buckets@
    }

    pub open spec fn wf(self) -> bool {
        &&& self.ids_view().len() == self.buckets_view().len()
        &&& forall|i: int, j: int|
            0 <= i < j < self.ids_view().len() ==> self.ids_view()[i] != self.ids_view()[j]
        &&& forall|i: int| 0 <= i < self.buckets_view().len() ==> bucket_wf(#[trigger] self.buckets_view()[i])
    }

    pub open spec fn contains_id(self, id: Seq<u8>) -> bool {
        exists|i: int| 0 <= i < self.ids_view().len() && self.ids_view()[i] == id
    }

    /// The bucket standing under an identity; meaningful when `contains_id`.
    pub open spec fn bucket_of(self, id: Seq<u8>) -> TokenBucket {
        self.buckets_view()[choose|i: int|
            0 <= i < self.ids_view().len() && self.ids_view()[i] == id]
    }

    pub fn new() -> (l: RateLimiter)
        ensures
            l.wf(),
            forall|id: Seq<u8>| !l.contains_id(id),
    {
        RateLimiter { ids: Vec::new(), buckets: Vec::new() }
    }

    /// How one admission attempt moves a limiter: the identity's bucket — a
    /// fresh full one on first use — takes one `step_spec` transition at
    /// `now`, whose outcome is the decision `r`.
    pub open spec fn stepped(self, l1: RateLimiter, id: Seq<u8>, r: bool, now: u64) -> bool {
        let b0 = if self.contains_id(id) {
            self.bucket_of(id)
        } else {
            full_bucket(now)
        };
        (l1.bucket_of(id), r) == step_spec(b0, now)
    }

    /// One admission attempt for `identity` at clock reading `now`.
    ///
    /// The identity's bucket — a fresh full one on first use — takes exactly
    /// one `step_spec` transition, whose outcome is the returned decision;
    /// every other identity's state is untouched, so distinct identities
    /// never contend. Denial is immediate: nothing blocks or queues.
    pub fn admit_at(&mut self, identity: &[u8], now: u64) -> (r: bool)
        requires
            old(self).wf(),
        ensures
            final(self).wf(),
            final(self).contains_id(identity@),
            old(self).stepped(*final(self), identity@, r, now),
            forall|id: Seq<u8>|
                id != identity@ ==> (final(self).contains_id(id) == old(self).contains_id(id)),
            forall|id: Seq<u8>|
                id != identity@ && old(self).contains_id(id) ==> final(self).bucket_of(id) == old(
                    self,
                ).bucket_of(id),
    {
        let ghost l0 = *self;
        let n: usize = self.ids.len();
        let mut i: usize = 0;
        while i < n
            invariant
                l0 == *old(self),
                *self == l0,
                self.wf(),
                n == self.ids_view().len(),
                i <= n,
                forall|j: int| 0 <= j < i ==> self.ids_view()[j] != identity@,
            decreases n - i,
        {
            if bytes_eq(self.ids[i].as_slice(), identity) {
                let mut b: TokenBucket = self.buckets[i];
                let r = bucket_admit(&mut b, now);
                self.buckets.set(i, b);
                proof {
                    lemma_found_index(l0, identity@, i as int);
                    assert(self.ids_view() =~= l0.ids_view());
                    lemma_found_index(*self, identity@, i as int);
                    assert forall|id: Seq<u8>| self.contains_id(id) == l0.contains_id(id) by {
                        if l0.contains_id(id) {
                            let j = choose|j: int|
                                0 <= j < l0.ids_view().len() && l0.ids_view()[j] == id;
                            assert(self.ids_view()[j] == id);
                        }
                        if self.contains_id(id) {
                            let j = choose|j: int|
                                0 <= j < self.ids_view().len() && self.ids_view()[j] == id;
                            assert(l0.ids_view()[j] == id);
                        }
                    }
                    assert forall|id: Seq<u8>|
                        id != identity@ && l0.contains_id(id) implies self.bucket_of(id)
                        == l0.bucket_of(id) by {
                        lemma_other_id(l0, *self, id, i as int);
                    }
                }
                return r;
            }
            i = i + 1;
        }
        proof {
            assert(!l0.contains_id(identity@));
        }
        let mut b: TokenBucket = TokenBucket { credit_ms: WINDOW_MS, last_ms: now };
        let r = bucket_admit(&mut b, now);
        let mut id_copy: Vec<u8> = Vec::new();
        copy_bytes(identity, &mut id_copy);
        self.ids.push(id_copy);
        self.buckets.push(b);
        proof {
            assert(self.ids_view() =~= l0.ids_view().push(identity@));
            assert(self.buckets_view() =~= l0.buckets_view().push(b));
            assert(self.ids_view()[n as int] == identity@);
            lemma_found_index(*self, identity@, n as int);
            assert forall|id: Seq<u8>|
                id != identity@ && l0.contains_id(id) implies self.bucket_of(id)
                == l0.bucket_of(id) by {
                lemma_other_id(l0, *self, id, n as int);
            }
            assert forall|id: Seq<u8>|
                id != identity@ && self.contains_id(id) implies l0.contains_id(id) by {
                let j = choose|j: int|
                    0 <= j < self.ids_view().len() && self.ids_view()[j] == id;
                assert(j < n);
                assert(l0.ids_view()[j] == id);
            }
            assert forall|id: Seq<u8>|
                id != identity@ && l0.contains_id(id) implies self.contains_id(id) by {
                let j = choose|j: int|
                    0 <= j < l0.ids_view().len() && l0.ids_view()[j] == id;
                assert(self.ids_view()[j] == id);
            }
        }
        r
    }
}

/// Relies on std::time::SystemTime::now, read as whole milliseconds since the
/// Unix epoch. Nothing is assumed of the reading: the admission logic is
/// verified for every value the clock may hand back.
#[verifier::external_body]
fn now_millis() -> u64 {
    match std::time::SystemTime::now().duration_since(std::time::UNIX_EPOCH) {
        Ok(d) => d.as_millis() as u64,
        Err(_) => 0,
    }
}

impl RateLimiter {
    /// One admission attempt for `identity` at the present wall-clock
    /// reading: `admit_at` at whatever value the clock hands back.
    pub fn admit_now(&mut self, identity: &[u8]) -> (r: bool)
        requires
            old(self).wf(),
        ensures
            final(self).wf(),
            final(self).contains_id(identity@),
            exists|now: u64| old(self).stepped(*final(self), identity@, r, now),
            forall|id: Seq<u8>|
                id != identity@ ==> (final(self).contains_id(id) == old(self).contains_id(id)),
            forall|id: Seq<u8>|
                id != identity@ && old(self).contains_id(id) ==> final(self).bucket_of(id) == old(
                    self,
                ).bucket_of(id),
    {
        let now: u64 = now_millis();
        self.admit_at(identity, now)
    }
}

/// The bucket left after `k` admission attempts in turn, all at one instant.
pub open spec fn drained(b: TokenBucket, now: u64, k: nat) -> TokenBucket
    decreases k,
{
    if k == 0 {
        b
    } else {
        step_spec(drained(b, now, (k - 1) as nat), now).0
    }
}

proof fn lemma_drained_credit(t0: u64, k: nat)
    requires
        k <= QUOTA,
    ensures
        drained(full_bucket(t0), t0, k).credit_ms == WINDOW_MS - k * COST_MS,
        drained(full_bucket(t0), t0, k).last_ms == t0,
    decreases k,
{
    if k > 0 {
        lemma_drained_credit(t0, (k - 1) as nat);
    }
}

/// Exactly the quota passes within one window: from a fresh bucket, each of
/// the first `QUOTA` attempts at one instant is admitted, and the attempt
/// after them is denied.
pub proof fn lemma_quota_per_window(t0: u64)
    ensures
        forall|k: nat| k < QUOTA ==> (#[trigger] step_spec(drained(full_bucket(t0), t0, k), t0)).1,
        !step_spec(drained(full_bucket(t0), t0, QUOTA as nat), t0).1,
{
    assert forall|k: nat|
        k < QUOTA implies (#[trigger] step_spec(drained(full_bucket(t0), t0, k), t0)).1 by {
        lemma_drained_credit(t0, k);
    }
    lemma_drained_credit(t0, QUOTA as nat);
}

/// Once the refill interval of one admission has elapsed, any bucket admits
/// again: denial is transient.
pub proof fn lemma_refill_resumes(b: TokenBucket, t: u64)
    requires
        bucket_wf(b),
        b.last_ms + COST_MS <= t,
    ensures
        step_spec(b, t).1,
{
}

/// In a well-formed limiter, an index whose identity matches is the one index
/// `bucket_of` and `contains_id` speak of.
proof fn lemma_found_index(l: RateLimiter, id: Seq<u8>, i: int)
    requires
        l.wf(),
        0 <= i < l.ids_view().len(),
        l.ids_view()[i] == id,
    ensures
        l.contains_id(id),
        l.bucket_of(id) == l.buckets_view()[i],
{
    assert(l.contains_id(id));
    let j = choose|j: int| 0 <= j < l.ids_view().len() && l.ids_view()[j] == id;
    assert(j == i);
}

/// Replacing or appending at one index moves no other identity's bucket.
proof fn lemma_other_id(l0: RateLimiter, l1: RateLimiter, id: Seq<u8>, touched: int)
    requires
        l0.wf(),
        l1.wf(),
        l0.contains_id(id),
        l0.ids_view().len() <= l1.ids_view().len(),
        forall|j: int| 0 <= j < l0.ids_view().len() ==> l1.ids_view()[j] == l0.ids_view()[j],
        forall|j: int|
            0 <= j < l0.buckets_view().len() && j != touched ==> l1.buckets_view()[j]
                == l0.buckets_view()[j],
        0 <= touched < l1.ids_view().len(),
        l1.ids_view()[touched] != id,
    ensures
        l1.contains_id(id),
        l1.bucket_of(id) == l0.bucket_of(id),
{
    let i = choose|i: int| 0 <= i < l0.ids_view().len() && l0.ids_view()[i] == id;
    assert(l1.ids_view()[i] == id);
    lemma_found_index(l1, id, i);
    assert(i != touched);
    lemma_found_index(l0, id, i);
}

/// Byte-string equality, element by element.
fn bytes_eq(a: &[u8], b: &[u8]) -> (r: bool)
    ensures
        r <==> a@ == b@,
{
    if a.len() != b.len() {
        proof {
            assert(a@.len() != b@.len());
        }
        return false;
    }
    let n: usize = a.len();
    let mut i: usize = 0;
    while i < n
        invariant
            n == a@.len(),
            n == b@.len(),
            i <= n,
            forall|j: int| 0 <= j < i ==> a@[j] == b@[j],
        decreases n - i,
    {
        if a[i] != b[i] {
            return false;
        }
        i = i + 1;
    }
    proof {
        assert(a@ =~= b@);
    }
    true
}

/// Copies a byte string into an owned buffer.
fn copy_bytes(src: &[u8], dst: &mut Vec<u8>)
    requires
        old(dst)@.len() == 0,
    ensures
        final(dst)@ == src@,
{
    let n: usize = src.len();
    let mut i: usize = 0;
    while i < n
        invariant
            n == src@.len(),
            i <= n,
            dst@ =~= src@.take(i as int),
        decreases n - i,
    {
        dst.push(src[i]);
        i = i + 1;
    }
    proof {
        assert(src@.take(n as int) =~= src@);
    }
}

} // verus!
