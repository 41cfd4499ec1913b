//! Samples and the mutation engine: byte-level variants of a parent sample,
//! plus the corpus manager that admits samples with novel trace signatures.

use vstd::prelude::*;

verus! {

/// Tag identifying which mutation strategy produced a sample.
#[derive(Clone, Copy, Debug, PartialEq, Eq, Structural)]
pub enum MutationMethod {
    Raw,
    BitFlip,
    ByteFlip,
    InsertBlock,
    RemoveBlock,
}

/// One unit of fuzz input: the literal bytes to test, the strategy that
/// produced them, a generation counter, and the trace signature observed
/// when the bytes were executed (absent until then).
#[derive(Debug)]
pub struct Sample {
    pub version: u32,
    pub data: Vec<u8>,
    pub method: MutationMethod,
    pub trace: Option<Vec<u64>>,
}

/// The result of flipping one bit: bit `k` of byte `i` inverted, all
/// other bytes unchanged.
pub open spec fn is_bit_flip(inp: Seq<u8>, out: Seq<u8>, i: int, k: u8) -> bool {
    0 <= i < inp.len() && k < 8 && out == inp.update(i, (inp[i] ^ (1u8 << k)) as u8)
}

/// The result of overwriting one byte: byte `i` replaced by `v`, all other
/// bytes unchanged.
pub open spec fn is_byte_flip(inp: Seq<u8>, out: Seq<u8>, i: int, v: u8) -> bool {
    0 <= i < inp.len() && out == inp.update(i, v)
}

/// The result of inserting a block of one to seven bytes at position `i`.
pub open spec fn is_block_insert(inp: Seq<u8>, out: Seq<u8>, i: int, b: Seq<u8>) -> bool {
    0 <= i <= inp.len() && 1 <= b.len() <= 7 && out == inp.take(i) + b + inp.skip(i)
}

/// The result of removing `c` bytes at position `i`; at most seven, and
/// never past the end of the buffer.
pub open spec fn is_block_removal(inp: Seq<u8>, out: Seq<u8>, i: int, c: int) -> bool {
    0 <= i < inp.len() && 1 <= c <= 7 && c <= inp.len() - i && out == inp.take(i) + inp.skip(i + c)
}

/// The generation counter of a child sample: one more than its parent's,
/// saturating at the top of the range (the counter is diagnostic only).
pub open spec fn next_version(v: u32) -> u32 {
    if v < u32::MAX {
        (v + 1) as u32
    } else {
        v
    }
}

/// Byte-for-byte copy of a buffer.
fn clone_bytes(v: &Vec<u8>) -> (r: Vec<u8>)
    ensures
        r@ == v@,
{
    let mut r: Vec<u8> = Vec::new();
    let mut i: usize = 0;
    while i < v.len()
        invariant
            i <= v@.len(),
            r@ == v@.take(i as int),
        decreases v@.len() - i,
    {
        r.push(v[i]);
        proof {
            assert(v@.take(i + 1) =~= v@.take(i as int).push(v@[i as int]));
        }
        i = i + 1;
    }
    proof {
        assert(v@.take(v@.len() as int) =~= v@);
    }
    r
}

impl Sample {
    /// A seed sample taken verbatim from the initial corpus.
    pub fn new(content: &Vec<u8>) -> (s: Sample)
        ensures
            s.version == 1,
            s.data@ == content@,
            s.method is Raw,
            s.trace is None,
    {
        Sample { version: 1, data: clone_bytes(content), method: MutationMethod::Raw, trace: None }
    }

    fn child_version(&self) -> (v: u32)
        ensures
            v == next_version(self.version),
    {
        if self.version < u32::MAX {
            self.version + 1
        } else {
            self.version
        }
    }

    /// An unmodified copy of this sample's bytes, one generation later.
    pub fn raw(&self) -> (s: Sample)
        ensures
            s.data@ == self.data@,
            s.version == next_version(self.version),
            s.method is Raw,
            s.trace is None,
    {
        Sample {
            version: self.child_version(),
            data: clone_bytes(&self.data),
            method: MutationMethod::Raw,
            trace: None,
        }
    }

    /// Flip one bit of one byte. `bit` must have at least one bit set, so
    /// the result always differs from the parent.
    pub fn bit_flip_at(&self, index: usize, bit: u8) -> (s: Sample)
        requires
            index < self.data@.len(),
            bit != 0,
        ensures
            s.data@ == self.data@.update(index as int, (self.data@[index as int] ^ bit) as u8),
            s.data@.len() == self.data@.len(),
            s.data@ != self.data@,
            s.version == next_version(self.version),
            s.method is BitFlip,
            s.trace is None,
    {
        let mut bytecode = clone_bytes(&self.data);
        let orig = bytecode[index];
        let flipped = orig ^ bit;
        proof {
            assert(bit != 0 ==> (orig ^ bit) != orig) by (bit_vector);
        }
        bytecode.set(index, flipped);
        let s = Sample {
            version: self.child_version(),
            data: bytecode,
            method: MutationMethod::BitFlip,
            trace: None,
        };
        proof {
            assert(s.data@[index as int] != self.data@[index as int]);
        }
        s
    }

    /// Overwrite one byte with the given value.
    pub fn byte_flip_at(&self, index: usize, value: u8) -> (s: Sample)
        requires
            index < self.data@.len(),
        ensures
            s.data@ == self.data@.update(index as int, value),
            s.data@.len() == self.data@.len(),
            s.version == next_version(self.version),
            s.method is ByteFlip,
            s.trace is None,
    {
        let mut bytecode = clone_bytes(&self.data);
        bytecode.set(index, value);
        Sample {
            version: self.child_version(),
            data: bytecode,
            method: MutationMethod::ByteFlip,
            trace: None,
        }
    }

    /// Insert a block of one to seven bytes at `index` (the end of the
    /// buffer included).
    pub fn insert_block_at(&self, index: usize, block: &Vec<u8>) -> (s: Sample)
        requires
            index <= self.data@.len(),
            1 <= block@.len() <= 7,
        ensures
            s.data@ == self.data@.take(index as int) + block@ + self.data@.skip(index as int),
            s.data@.len() == self.data@.len() + block@.len(),
            s.version == next_version(self.version),
            s.method is InsertBlock,
            s.trace is None,
    {
        let mut bytecode: Vec<u8> = Vec::new();
        let mut i: usize = 0;
        while i < index
            invariant
                i <= index <= self.data@.len(),
                bytecode@ == self.data@.take(i as int),
            decreases index - i,
        {
            bytecode.push(self.data[i]);
            proof {
                assert(self.data@.take(i + 1) =~= self.data@.take(i as int).push(self.data@[i as int]));
            }
            i = i + 1;
        }
        let mut j: usize = 0;
        while j < block.len()
            invariant
                j <= block@.len(),
                index <= self.data@.len(),
                bytecode@ == self.data@.take(index as int) + block@.take(j as int),
            decreases block@.len() - j,
        {
            bytecode.push(block[j]);
            proof {
                assert(block@.take(j + 1) =~= block@.take(j as int).push(block@[j as int]));
                assert(self.data@.take(index as int) + block@.take(j + 1) =~= (self.data@.take(
                    index as int,
                ) + block@.take(j as int)).push(block@[j as int]));
            }
            j = j + 1;
        }
        proof {
            assert(block@.take(block@.len() as int) =~= block@);
        }
        let mut k: usize = index;
        while k < self.data.len()
            invariant
                index <= k <= self.data@.len(),
                bytecode@ == self.data@.take(index as int) + block@ + self.data@.subrange(
                    index as int,
                    k as int,
                ),
            decreases self.data@.len() - k,
        {
            bytecode.push(self.data[k]);
            proof {
                assert(self.data@.subrange(index as int, k + 1) =~= self.data@.subrange(
                    index as int,
                    k as int,
                ).push(self.data@[k as int]));
                assert((self.data@.take(index as int) + block@ + self.data@.subrange(
                    index as int,
                    k + 1,
                )) =~= (self.data@.take(index as int) + block@ + self.data@.subrange(
                    index as int,
                    k as int,
                )).push(self.data@[k as int]));
            }
            k = k + 1;
        }
        proof {
            assert(self.data@.subrange(index as int, self.data@.len() as int) =~= self.data@.skip(
                index as int,
            ));
        }
        Sample {
            version: self.child_version(),
            data: bytecode,
            method: MutationMethod::InsertBlock,
            trace: None,
        }
    }

    /// Remove `count` bytes starting at `index`; at most seven, and never
    /// past the end of the buffer.
    pub fn remove_block_at(&self, index: usize, count: usize) -> (s: Sample)
        requires
            index < self.data@.len(),
            1 <= count <= 7,
            count <= self.data@.len() - index,
        ensures
            s.data@ == self.data@.take(index as int) + self.data@.skip(index as int + count),
            s.data@.len() == self.data@.len() - count,
            s.version == next_version(self.version),
            s.method is RemoveBlock,
            s.trace is None,
    {
        let mut bytecode: Vec<u8> = Vec::new();
        let mut i: usize = 0;
        while i < index
            invariant
                i <= index < self.data@.len(),
                bytecode@ == self.data@.take(i as int),
            decreases index - i,
        {
            bytecode.push(self.data[i]);
            proof {
                assert(self.data@.take(i + 1) =~= self.data@.take(i as int).push(self.data@[i as int]));
            }
            i = i + 1;
        }
        let n = self.data.len();
        let mut k: usize = index + count;
        while k < n
            invariant
                n == self.data@.len(),
                index + count <= k <= self.data@.len(),
                index < self.data@.len(),
                bytecode@ == self.data@.take(index as int) + self.data@.subrange(
                    index as int + count,
                    k as int,
                ),
            decreases self.data@.len() - k,
        {
            bytecode.push(self.data[k]);
            proof {
                assert(self.data@.subrange(index as int + count, k + 1) =~= self.data@.subrange(
                    index as int + count,
                    k as int,
                ).push(self.data@[k as int]));
                assert((self.data@.take(index as int) + self.data@.subrange(
                    index as int + count,
                    k + 1,
                )) =~= (self.data@.take(index as int) + self.data@.subrange(
                    index as int + count,
                    k as int,
                )).push(self.data@[k as int]));
            }
            k = k + 1;
        }
        proof {
            assert(self.data@.subrange(index as int + count, self.data@.len() as int)
                =~= self.data@.skip(index as int + count));
            assert(bytecode@ =~= self.data@.take(index as int) + self.data@.skip(
                index as int + count,
            ));
        }
        Sample {
            version: self.child_version(),
            data: bytecode,
            method: MutationMethod::RemoveBlock,
            trace: None,
        }
    }

    /// Produce a new sample by a strategy chosen uniformly at random among
    /// bit flip, byte flip, block insertion and block removal. On an empty
    /// buffer the index-based strategies are inapplicable and fall back to
    /// an unmodified copy; a bit flip always changes the data.
    pub fn mutate(&self, rng: &mut rand::rngs::ThreadRng) -> (s: Sample)
        ensures
            s.version == next_version(self.version),
            s.trace is None,
            s.method is Raw ==> self.data@.len() == 0 && s.data@ == self.data@,
            self.data@.len() == 0 ==> (s.method is Raw || s.method is InsertBlock),
            s.method is BitFlip ==> s.data@.len() == self.data@.len() && s.data@ != self.data@,
            s.method is BitFlip ==> exists|i: int, k: u8|
                #[trigger] is_bit_flip(self.data@, s.data@, i, k),
            s.method is ByteFlip ==> s.data@.len() == self.data@.len(),
            s.method is ByteFlip ==> exists|i: int, v: u8|
                #[trigger] is_byte_flip(self.data@, s.data@, i, v),
            s.method is InsertBlock ==> self.data@.len() + 1 <= s.data@.len() <= self.data@.len()
                + 7,
            s.method is InsertBlock ==> exists|i: int, b: Seq<u8>|
                #[trigger] is_block_insert(self.data@, s.data@, i, b),
            s.method is RemoveBlock ==> self.data@.len() - 7 <= s.data@.len() < self.data@.len(),
            s.method is RemoveBlock ==> exists|i: int, c: int|
                #[trigger] is_block_removal(self.data@, s.data@, i, c),
    {
        let n = self.data.len();
        let strategy = crate::rng::rng_between(rng, 0, 3);
        if strategy == 0 {
            if n == 0 {
                return self.raw();
            }
            let index = crate::rng::rng_between(rng, 0, (n - 1) as u64) as usize;
            let shift = crate::rng::rng_between(rng, 0, 7);
            let bit: u8 = 1u8 << (shift as u8);
            proof {
                let sh = shift as u8;
                assert(sh <= 7 ==> (1u8 << sh) != 0) by (bit_vector);
            }
            let s = self.bit_flip_at(index, bit);
            proof {
                assert(is_bit_flip(self.data@, s.data@, index as int, shift as u8));
            }
            s
        } else if strategy == 1 {
            if n == 0 {
                return self.raw();
            }
            let index = crate::rng::rng_between(rng, 0, (n - 1) as u64) as usize;
            let value = crate::rng::rng_between(rng, 0, 255) as u8;
            let s = self.byte_flip_at(index, value);
            proof {
                assert(is_byte_flip(self.data@, s.data@, index as int, value));
            }
            s
        } else if strategy == 2 {
            let index = crate::rng::rng_between(rng, 0, n as u64) as usize;
            let count = crate::rng::rng_between(rng, 1, 7) as usize;
            let mut block: Vec<u8> = Vec::new();
            let mut j: usize = 0;
            while j < count
                invariant
                    j <= count <= 7,
                    block@.len() == j,
                decreases count - j,
            {
                block.push(crate::rng::rng_between(rng, 0, 255) as u8);
                j = j + 1;
            }
            let s = self.insert_block_at(index, &block);
            proof {
                assert(is_block_insert(self.data@, s.data@, index as int, block@));
            }
            s
        } else {
            if n == 0 {
                return self.raw();
            }
            let index = crate::rng::rng_between(rng, 0, (n - 1) as u64) as usize;
            let wanted = crate::rng::rng_between(rng, 1, 7) as usize;
            let avail = n - index;
            let count = if wanted < avail {
                wanted
            } else {
                avail
            };
            let s = self.remove_block_at(index, count);
            proof {
                assert(is_block_removal(self.data@, s.data@, index as int, count as int));
            }
            s
        }
    }

    /// Attach the trace signature observed for this sample's execution; a
    /// sample carries none until then, and carries it exactly once.
    pub fn add_trace(&mut self, trace: Vec<u64>)
        requires
            old(self).trace is None,
        ensures
            final(self).trace matches Some(t) && t == trace,
            final(self).version == old(self).version,
            final(self).data == old(self).data,
            final(self).method == old(self).method,
    {
        self.trace = Some(trace)
    }
}

/// How many mutated children each corpus sample contributes per round; a
/// tunable constant, not a structural invariant.
pub const FAN_OUT: usize = 100;

/// The trace signature a sample carries.
pub open spec fn sig_of(s: Sample) -> Seq<u64>
    recommends
        s.trace is Some,
{
    s.trace->0@
}

/// The signatures present in a list of recorded signatures.
pub open spec fn sigs_of_list(tl: Seq<Vec<u64>>) -> Set<Seq<u64>> {
    Set::new(|t: Seq<u64>| exists|i: int| 0 <= i < tl.len() && #[trigger] tl[i]@ == t)
}

/// Two samples that agree in every observable field: generation counter,
/// data bytes, producing strategy, and trace signature (or the absence of
/// one).
pub open spec fn sample_like(a: Sample, b: Sample) -> bool {
    &&& a.version == b.version
    &&& a.data@ == b.data@
    &&& a.method == b.method
    &&& (a.trace is Some <==> b.trace is Some)
    &&& (a.trace is Some ==> sig_of(a) == sig_of(b))
}

/// Whether a sample agrees field-for-field with some member of a batch.
pub open spec fn in_batch(s: Sample, batch: Seq<Sample>) -> bool {
    exists|j: int| 0 <= j < batch.len() && sample_like(s, #[trigger] batch[j])
}

/// The signatures carried by the samples of a batch (samples without a
/// trace contribute nothing).
pub open spec fn batch_sigs(batch: Seq<Sample>) -> Set<Seq<u64>> {
    Set::new(
        |t: Seq<u64>|
            exists|i: int|
                0 <= i < batch.len() && (#[trigger] batch[i].trace) is Some && sig_of(batch[i])
                    == t,
    )
}

proof fn lemma_sigs_of_list_push(tl: Seq<Vec<u64>>, t: Vec<u64>)
    ensures
        sigs_of_list(tl.push(t)) =~= sigs_of_list(tl).insert(t@),
{
    assert forall|s: Seq<u64>| sigs_of_list(tl.push(t)).contains(s) implies sigs_of_list(
        tl,
    ).insert(t@).contains(s) by {
        let i = choose|i: int| 0 <= i < tl.push(t).len() && #[trigger] tl.push(t)[i]@ == s;
        if i < tl.len() {
            assert(tl[i]@ == s);
        } else {
            assert(s == t@);
        }
    }
    assert forall|s: Seq<u64>| sigs_of_list(tl).insert(t@).contains(s) implies sigs_of_list(
        tl.push(t),
    ).contains(s) by {
        if sigs_of_list(tl).contains(s) {
            let i = choose|i: int| 0 <= i < tl.len() && #[trigger] tl[i]@ == s;
            assert(tl.push(t)[i]@ == s);
        } else {
            assert(tl.push(t)[tl.len() as int]@ == s);
        }
    }
}

proof fn lemma_batch_sigs_take_step(batch: Seq<Sample>, k: int)
    requires
        0 <= k < batch.len(),
    ensures
        batch[k].trace is Some ==> batch_sigs(batch.take(k + 1)) =~= batch_sigs(
            batch.take(k),
        ).insert(sig_of(batch[k])),
        batch[k].trace is None ==> batch_sigs(batch.take(k + 1)) =~= batch_sigs(batch.take(k)),
{
    let pre = batch.take(k);
    let cur = batch.take(k + 1);
    assert(forall|i: int| 0 <= i < pre.len() ==> pre[i] == cur[i]);
    assert(cur[k] == batch[k]);
    assert forall|t: Seq<u64>| batch_sigs(pre).contains(t) implies batch_sigs(cur).contains(t) by {
        let i = choose|i: int|
            0 <= i < pre.len() && (#[trigger] pre[i].trace) is Some && sig_of(pre[i]) == t;
        assert(cur[i].trace is Some && sig_of(cur[i]) == t);
    }
    if batch[k].trace is Some {
        assert(batch_sigs(cur).contains(sig_of(batch[k]))) by {
            assert(cur[k].trace is Some && sig_of(cur[k]) == sig_of(batch[k]));
        }
        assert forall|t: Seq<u64>| batch_sigs(cur).contains(t) implies batch_sigs(pre).insert(
            sig_of(batch[k]),
        ).contains(t) by {
            let i = choose|i: int|
                0 <= i < cur.len() && (#[trigger] cur[i].trace) is Some && sig_of(cur[i]) == t;
            if i < k {
                assert(pre[i].trace is Some && sig_of(pre[i]) == t);
            }
        }
    } else {
        assert forall|t: Seq<u64>| batch_sigs(cur).contains(t) implies batch_sigs(pre).contains(
            t,
        ) by {
            let i = choose|i: int|
                0 <= i < cur.len() && (#[trigger] cur[i].trace) is Some && sig_of(cur[i]) == t;
            assert(i < k);
            assert(pre[i].trace is Some && sig_of(pre[i]) == t);
        }
    }
}

/// Element-wise equality of two recorded signatures.
fn sig_eq(a: &Vec<u64>, b: &Vec<u64>) -> (r: bool)
    ensures
        r == (a@ == b@),
{
    if a.len() != b.len() {
        return false;
    }
    let mut i: usize = 0;
    while i < a.len()
        invariant
            i <= a@.len(),
            a@.len() == b@.len(),
            forall|j: int| 0 <= j < i ==> a@[j] == b@[j],
        decreases a@.len() - i,
    {
        if a[i] != b[i] {
            return false;
        }
        i = i + 1;
    }
    proof {
        assert(a@ =~= b@);
    }
    true
}

/// Byte-for-byte copy of a recorded signature.
pub(crate) fn clone_addrs(v: &Vec<u64>) -> (r: Vec<u64>)
    ensures
        r@ == v@,
{
    let mut r: Vec<u64> = Vec::new();
    let mut i: usize = 0;
    while i < v.len()
        invariant
            i <= v@.len(),
            r@ == v@.take(i as int),
        decreases v@.len() - i,
    {
        r.push(v[i]);
        proof {
            assert(v@.take(i + 1) =~= v@.take(i as int).push(v@[i as int]));
        }
        i = i + 1;
    }
    proof {
        assert(v@.take(v@.len() as int) =~= v@);
    }
    r
}

impl Sample {
    /// A field-for-field copy.
    pub fn duplicate(&self) -> (r: Sample)
        ensures
            r.version == self.version,
            r.data@ == self.data@,
            r.method == self.method,
            r.trace is Some <==> self.trace is Some,
            r.trace is Some ==> sig_of(r) == sig_of(*self),
    {
        let trace = match &self.trace {
            Some(t) => Some(clone_addrs(t)),
            None => None,
        };
        Sample {
            version: self.version,
            data: clone_bytes(&self.data),
            method: self.method,
            trace,
        }
    }
}

/// The mutation engine and corpus manager: the working set of samples whose
/// trace signatures were novel, the signatures seen so far, and the queue of
/// children awaiting execution.
pub struct Mutator {
    corpus: Vec<Sample>,
    samples: Vec<Sample>,
    trace_list: Vec<Vec<u64>>,
    rng: rand::rngs::ThreadRng,
}

impl Mutator {
    /// The set of trace signatures observed so far.
    pub closed spec fn sig_set(&self) -> Set<Seq<u64>> {
        sigs_of_list(self.trace_list@)
    }

    /// The samples admitted for carrying a novel signature.
    pub closed spec fn corpus_view(&self) -> Seq<Sample> {
        self.corpus@
    }

    /// The children queued for execution.
    pub closed spec fn pending_view(&self) -> Seq<Sample> {
        self.samples@
    }

    /// The corpus and the recorded signatures advance in lockstep: every
    /// admitted sample carries a trace, entry `i` of the corpus carries the
    /// `i`-th recorded signature, and no signature is recorded twice.
    pub closed spec fn wf(&self) -> bool {
        &&& self.trace_list@.len() == self.corpus@.len()
        &&& forall|i: int|
            0 <= i < self.corpus@.len() ==> (#[trigger] self.corpus@[i].trace) is Some
        &&& forall|i: int|
            0 <= i < self.corpus@.len() ==> sig_of(#[trigger] self.corpus@[i])
                == self.trace_list@[i]@
        &&& forall|i: int, j: int|
            0 <= i < j < self.trace_list@.len() ==> self.trace_list@[i]@ != self.trace_list@[j]@
    }

    /// A fresh engine with an empty corpus and no recorded signatures.
    pub fn new() -> (m: Mutator)
        ensures
            m.wf(),
            m.corpus_view().len() == 0,
            m.pending_view().len() == 0,
            m.sig_set() =~= Set::<Seq<u64>>::empty(),
    {
        let m = Mutator {
            corpus: Vec::new(),
            samples: Vec::new(),
            trace_list: Vec::new(),
            rng: crate::rng::fresh_rng(),
        };
        proof {
            assert forall|t: Seq<u64>| !m.sig_set().contains(t) by {}
            assert(m.sig_set() =~= Set::<Seq<u64>>::empty());
        }
        m
    }

    /// Queue every entry of the initial corpus as a seed sample.
    pub fn consume(&mut self, corpus: &Vec<Vec<u8>>)
        requires
            old(self).wf(),
        ensures
            final(self).wf(),
            final(self).corpus_view() == old(self).corpus_view(),
            final(self).sig_set() == old(self).sig_set(),
            final(self).pending_view().len() == old(self).pending_view().len() + corpus@.len(),
            forall|i: int|
                0 <= i < old(self).pending_view().len() ==> final(self).pending_view()[i] == old(
                    self,
                ).pending_view()[i],
            forall|i: int|
                0 <= i < corpus@.len() ==> {
                    let s = #[trigger] final(self).pending_view()[old(self).pending_view().len()
                        + i];
                    &&& s.data@ == corpus@[i]@
                    &&& s.method is Raw
                    &&& s.trace is None
                    &&& s.version == 1
                },
    {
        let base = self.samples.len();
        let mut k: usize = 0;
        while k < corpus.len()
            invariant
                k <= corpus@.len(),
                self.wf(),
                self.corpus@ == old(self).corpus@,
                self.trace_list@ == old(self).trace_list@,
                base == old(self).samples@.len(),
                self.samples@.len() == base + k,
                forall|i: int| 0 <= i < base ==> self.samples@[i] == old(self).samples@[i],
                forall|i: int|
                    0 <= i < k ==> {
                        let s = #[trigger] self.samples@[base + i];
                        &&& s.data@ == corpus@[i]@
                        &&& s.method is Raw
                        &&& s.trace is None
                        &&& s.version == 1
                    },
            decreases corpus@.len() - k,
        {
            let entry = &corpus[k];
            self.samples.push(Sample::new(entry));
            k = k + 1;
        }
    }

    /// Whether a signature is already recorded.
    fn contains_trace(&self, t: &Vec<u64>) -> (r: bool)
        ensures
            r == self.sig_set().contains(t@),
    {
        let mut i: usize = 0;
        while i < self.trace_list.len()
            invariant
                i <= self.trace_list@.len(),
                forall|j: int| 0 <= j < i ==> self.trace_list@[j]@ != t@,
            decreases self.trace_list@.len() - i,
        {
            if sig_eq(&self.trace_list[i], t) {
                return true;
            }
            i = i + 1;
        }
        proof {
            if self.sig_set().contains(t@) {
                let j = choose|j: int|
                    0 <= j < self.trace_list@.len() && #[trigger] self.trace_list@[j]@ == t@;
                assert(false);
            }
        }
        false
    }

    /// How many samples the corpus holds.
    pub fn corpus_len(&self) -> (n: usize)
        ensures
            n == self.corpus_view().len(),
    {
        self.corpus.len()
    }

    /// The corpus sample at position `i`.
    pub fn corpus_entry(&self, i: usize) -> (r: &Sample)
        requires
            i < self.corpus_view().len(),
        ensures
            *r == self.corpus_view()[i as int],
    {
        &self.corpus[i]
    }

    /// How many children await execution.
    pub fn pending_len(&self) -> (n: usize)
        ensures
            n == self.pending_view().len(),
    {
        self.samples.len()
    }

    /// Absorb a batch of executed samples, then queue the next round of
    /// children. A sample is admitted to the corpus only if it carries a
    /// trace signature that is not yet recorded; samples without a trace
    /// are dropped. Afterwards the recorded signatures are exactly the old
    /// ones joined with those of the batch, the old corpus entries are
    /// untouched, and every new entry owes its admission to a batch
    /// signature that was novel.
    pub fn update(&mut self, samples: &Vec<Sample>)
        requires
            old(self).wf(),
        ensures
            final(self).wf(),
            final(self).sig_set() == old(self).sig_set().union(batch_sigs(samples@)),
            final(self).corpus_view().len() >= old(self).corpus_view().len(),
            forall|i: int|
                0 <= i < old(self).corpus_view().len() ==> final(self).corpus_view()[i] == old(
                    self,
                ).corpus_view()[i],
            forall|i: int|
                old(self).corpus_view().len() <= i < final(self).corpus_view().len() ==> {
                    let s = #[trigger] final(self).corpus_view()[i];
                    &&& s.trace is Some
                    &&& batch_sigs(samples@).contains(sig_of(s))
                    &&& !old(self).sig_set().contains(sig_of(s))
                },
            (forall|i: int|
                0 <= i < samples@.len() && (#[trigger] samples@[i].trace) is Some ==> old(
                    self,
                ).sig_set().contains(sig_of(samples@[i]))) ==> final(self).corpus_view() == old(
                self,
            ).corpus_view(),
            forall|i: int|
                #![trigger final(self).corpus_view()[i]]
                old(self).corpus_view().len() <= i < final(self).corpus_view().len() ==> in_batch(
                    final(self).corpus_view()[i],
                    samples@,
                ),
            final(self).pending_view().len() == old(self).pending_view().len() + (FAN_OUT as int)
                * final(self).corpus_view().len(),
            forall|i: int|
                0 <= i < old(self).pending_view().len() ==> final(self).pending_view()[i] == old(
                    self,
                ).pending_view()[i],
            forall|ci: int, n: int|
                0 <= ci < final(self).corpus_view().len() && 0 <= n < FAN_OUT ==> {
                    let c = #[trigger] final(self).pending_view()[old(self).pending_view().len()
                        + ci * (FAN_OUT as int) + n];
                    &&& c.trace is None
                    &&& c.version == next_version(final(self).corpus_view()[ci].version)
                },
    {
        let mut k: usize = 0;
        while k < samples.len()
            invariant
                k <= samples@.len(),
                self.wf(),
                self.samples@ == old(self).samples@,
                self.sig_set() =~= old(self).sig_set().union(batch_sigs(samples@.take(k as int))),
                self.corpus@.len() >= old(self).corpus@.len(),
                forall|i: int|
                    0 <= i < old(self).corpus@.len() ==> self.corpus@[i] == old(self).corpus@[i],
                forall|i: int|
                    old(self).corpus@.len() <= i < self.corpus@.len() ==> {
                        let s = #[trigger] self.corpus@[i];
                        &&& s.trace is Some
                        &&& batch_sigs(samples@.take(k as int)).contains(sig_of(s))
                        &&& !old(self).sig_set().contains(sig_of(s))
                    },
                forall|i: int|
                    #![trigger self.corpus@[i]]
                    old(self).corpus@.len() <= i < self.corpus@.len() ==> in_batch(
                        self.corpus@[i],
                        samples@,
                    ),
            decreases samples@.len() - k,
        {
            let ghost pre = *self;
            let sample = &samples[k];
            proof {
                lemma_batch_sigs_take_step(samples@, k as int);
            }
            match &sample.trace {
                Some(trace) => {
                    if !self.contains_trace(trace) {
                        self.corpus.push(sample.duplicate());
                        proof {
                            assert(sample_like(
                                self.corpus@[self.corpus@.len() - 1],
                                samples@[k as int],
                            ));
                            assert(in_batch(self.corpus@[self.corpus@.len() - 1], samples@));
                        }
                        let copy = clone_addrs(trace);
                        let ghost gcopy = copy;
                        self.trace_list.push(copy);
                        proof {
                            lemma_sigs_of_list_push(pre.trace_list@, gcopy);
                            assert(self.sig_set() =~= pre.sig_set().insert(trace@));
                            assert forall|i: int|
                                0 <= i < pre.trace_list@.len() implies pre.trace_list@[i]@
                                != trace@ by {
                                if pre.trace_list@[i]@ == trace@ {
                                    assert(pre.sig_set().contains(trace@));
                                }
                            }
                            assert(self.sig_set() =~= old(self).sig_set().union(
                                batch_sigs(samples@.take(k + 1)),
                            ));
                        }
                    } else {
                        proof {
                            assert(self.sig_set() =~= old(self).sig_set().union(
                                batch_sigs(samples@.take(k + 1)),
                            ));
                        }
                    }
                },
                None => {
                    proof {
                        assert(self.sig_set() =~= old(self).sig_set().union(
                            batch_sigs(samples@.take(k + 1)),
                        ));
                    }
                },
            }
            k = k + 1;
        }
        proof {
            assert(samples@.take(samples@.len() as int) =~= samples@);
            if forall|i: int|
                0 <= i < samples@.len() && (#[trigger] samples@[i].trace) is Some ==> old(
                    self,
                ).sig_set().contains(sig_of(samples@[i])) {
                if self.corpus@.len() > old(self).corpus@.len() {
                    let s = self.corpus@[old(self).corpus@.len() as int];
                    assert(batch_sigs(samples@).contains(sig_of(s)));
                    let i = choose|i: int|
                        0 <= i < samples@.len() && (#[trigger] samples@[i].trace) is Some && sig_of(
                            samples@[i],
                        ) == sig_of(s);
                    assert(old(self).sig_set().contains(sig_of(s)));
                }
                assert(self.corpus@ =~= old(self).corpus@);
            }
        }
        self.mutate();
    }

    /// Queue a fixed fan-out of mutated children of every corpus sample:
    /// exactly `FAN_OUT` children per corpus entry are appended, each with
    /// no trace yet and its parent's generation counter advanced.
    fn mutate(&mut self)
        requires
            old(self).wf(),
        ensures
            final(self).wf(),
            final(self).corpus@ == old(self).corpus@,
            final(self).trace_list@ == old(self).trace_list@,
            final(self).samples@.len() == old(self).samples@.len() + (FAN_OUT as int) * old(
                self,
            ).corpus@.len(),
            forall|i: int|
                0 <= i < old(self).samples@.len() ==> final(self).samples@[i] == old(
                    self,
                ).samples@[i],
            forall|ci: int, n: int|
                0 <= ci < old(self).corpus@.len() && 0 <= n < FAN_OUT ==> {
                    let c = #[trigger] final(self).samples@[old(self).samples@.len() + ci * (
                    FAN_OUT as int) + n];
                    &&& c.trace is None
                    &&& c.version == next_version(old(self).corpus@[ci].version)
                },
    {
        let mut ci: usize = 0;
        while ci < self.corpus.len()
            invariant
                ci <= self.corpus@.len(),
                self.wf(),
                self.corpus@ == old(self).corpus@,
                self.trace_list@ == old(self).trace_list@,
                self.samples@.len() == old(self).samples@.len() + (FAN_OUT as int) * ci,
                forall|i: int|
                    0 <= i < old(self).samples@.len() ==> self.samples@[i] == old(self).samples@[i],
                forall|c0: int, n0: int|
                    0 <= c0 < ci && 0 <= n0 < FAN_OUT ==> {
                        let c = #[trigger] self.samples@[old(self).samples@.len() + c0 * (
                        FAN_OUT as int) + n0];
                        &&& c.trace is None
                        &&& c.version == next_version(old(self).corpus@[c0].version)
                    },
            decreases self.corpus@.len() - ci,
        {
            let mut n: usize = 0;
            while n < FAN_OUT
                invariant
                    n <= FAN_OUT,
                    ci < self.corpus@.len(),
                    self.wf(),
                    self.corpus@ == old(self).corpus@,
                    self.trace_list@ == old(self).trace_list@,
                    self.samples@.len() == old(self).samples@.len() + (FAN_OUT as int) * ci + n,
                    forall|i: int|
                        0 <= i < old(self).samples@.len() ==> self.samples@[i] == old(
                            self,
                        ).samples@[i],
                    forall|c0: int, n0: int|
                        0 <= c0 < ci && 0 <= n0 < FAN_OUT ==> {
                            let c = #[trigger] self.samples@[old(self).samples@.len() + c0 * (
                            FAN_OUT as int) + n0];
                            &&& c.trace is None
                            &&& c.version == next_version(old(self).corpus@[c0].version)
                        },
                    forall|n0: int|
                        0 <= n0 < n ==> {
                            let c = #[trigger] self.samples@[old(self).samples@.len() + ci * (
                            FAN_OUT as int) + n0];
                            &&& c.trace is None
                            &&& c.version == next_version(old(self).corpus@[ci as int].version)
                        },
                decreases FAN_OUT - n,
            {
                let child = self.corpus[ci].mutate(&mut self.rng);
                self.samples.push(child);
                n = n + 1;
            }
            ci = ci + 1;
        }
    }

    /// Corpus admission is idempotent: however often a signature is fed
    /// back, a well-formed engine holds at most one corpus entry carrying
    /// it — two entries with the same signature are the same entry.
    pub proof fn lemma_corpus_admission_idempotent(&self, i: int, j: int)
        requires
            self.wf(),
            0 <= i < self.corpus_view().len(),
            0 <= j < self.corpus_view().len(),
            sig_of(self.corpus_view()[i]) == sig_of(self.corpus_view()[j]),
        ensures
            i == j,
    {
        if i != j {
            if i < j {
                assert(self.trace_list@[i]@ != self.trace_list@[j]@);
            } else {
                assert(self.trace_list@[j]@ != self.trace_list@[i]@);
            }
        }
    }

    /// Every recorded signature is witnessed by exactly one corpus entry.
    pub proof fn lemma_tracked_signature_has_entry(&self, t: Seq<u64>)
        requires
            self.wf(),
            self.sig_set().contains(t),
        ensures
            exists|i: int|
                0 <= i < self.corpus_view().len() && (#[trigger] self.corpus_view()[i].trace) is Some
                    && sig_of(self.corpus_view()[i]) == t,
    {
        let j = choose|j: int| 0 <= j < self.trace_list@.len() && #[trigger] self.trace_list@[j]@ == t;
        assert(0 <= j < self.corpus_view().len() && self.corpus_view()[j].trace is Some && sig_of(
            self.corpus_view()[j],
        ) == t);
    }

    /// Hand out the next queued child, if any.
    pub fn next_sample(&mut self) -> (r: Option<Sample>)
        requires
            old(self).wf(),
        ensures
            final(self).wf(),
            final(self).corpus_view() == old(self).corpus_view(),
            final(self).sig_set() == old(self).sig_set(),
            old(self).pending_view().len() == 0 ==> r is None && final(self).pending_view() == old(
                self,
            ).pending_view(),
            old(self).pending_view().len() > 0 ==> (r matches Some(s) && s == old(
                self,
            ).pending_view().last() && final(self).pending_view() == old(
                self,
            ).pending_view().drop_last()),
    {
        self.samples.pop()
    }
}

} // verus!
