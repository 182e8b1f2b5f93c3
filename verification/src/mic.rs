//! Re-chunking of a sample stream into chunks of one fixed size.

use vstd::prelude::*;

verus! {

/// The number of samples in each chunk that the microphone stream hands on.
pub const MIC_CHUNK_SIZE: usize = 100;

/// The items of a sequence of vectors, one after the other.
pub open spec fn flatten<T>(chunks: Seq<Vec<T>>) -> Seq<T>
    decreases chunks.len(),
{
    if chunks.len() == 0 {
        Seq::empty()
    } else {
        flatten(chunks.drop_last()) + chunks.last()@
    }
}

/// Every vector in `chunks` holds exactly `size` items.
pub open spec fn all_sized<T>(chunks: Seq<Vec<T>>, size: nat) -> bool {
    forall|k: int| 0 <= k < chunks.len() ==> (#[trigger] chunks[k])@.len() == size
}


/// The items of whole chunks of `size` items number `size` times the chunks.
pub proof fn lemma_flatten_len<T>(chunks: Seq<Vec<T>>, size: nat)
    requires
        all_sized(chunks, size),
    ensures
        flatten(chunks).len() == chunks.len() * size,
    decreases chunks.len(),
{
    if chunks.len() > 0 {
        let rest = chunks.drop_last();
        assert(all_sized(rest, size)) by {
            assert forall|k: int| 0 <= k < rest.len() implies (#[trigger] rest[k])@.len() == size by {
                assert(rest[k] == chunks[k]);
            }
        }
        lemma_flatten_len(rest, size);
        assert(chunks[chunks.len() - 1]@.len() == size);
        assert((rest.len() + 1) * size == rest.len() * size + size) by (nonlinear_arith);
    }
}

/// Item `j` of chunk `k` stands at position `k * size + j` of the flattened items.
pub proof fn lemma_flatten_index<T>(chunks: Seq<Vec<T>>, size: nat, k: int, j: int)
    requires
        all_sized(chunks, size),
        0 <= k < chunks.len(),
        0 <= j < size,
    ensures
        k * size + j < flatten(chunks).len(),
        flatten(chunks)[k * size + j] == chunks[k]@[j],
    decreases chunks.len(),
{
    let rest = chunks.drop_last();
    assert(all_sized(rest, size)) by {
        assert forall|m: int| 0 <= m < rest.len() implies (#[trigger] rest[m])@.len() == size by {
            assert(rest[m] == chunks[m]);
        }
    }
    lemma_flatten_len(rest, size);
    lemma_flatten_len(chunks, size);
    assert(chunks[k]@.len() == size);
    if k < chunks.len() - 1 {
        lemma_flatten_index(rest, size, k, j);
        assert(rest[k] == chunks[k]);
        assert(k * size + j < rest.len() * size) by (nonlinear_arith)
            requires
                k < rest.len(),
                j < size,
        ;
    } else {
        assert(k * size == rest.len() * size);
        assert(k * size + j < chunks.len() * size) by (nonlinear_arith)
            requires
                k + 1 == chunks.len(),
                j < size,
        ;
    }
}

/// Splitting a sequence into whole chunks of `size` items followed by fewer
/// than `size` items held back can be done in one way only: the chunks and the
/// rest are determined by the items.
pub proof fn law_chunking_unique<T>(
    chunks1: Seq<Vec<T>>,
    rest1: Seq<T>,
    chunks2: Seq<Vec<T>>,
    rest2: Seq<T>,
    size: nat,
)
    requires
        all_sized(chunks1, size),
        all_sized(chunks2, size),
        rest1.len() < size,
        rest2.len() < size,
        flatten(chunks1) + rest1 == flatten(chunks2) + rest2,
    ensures
        chunks1.len() == chunks2.len(),
        forall|k: int| 0 <= k < chunks1.len() ==> (#[trigger] chunks1[k])@ == chunks2[k]@,
        rest1 == rest2,
{
    lemma_flatten_len(chunks1, size);
    lemma_flatten_len(chunks2, size);
    let n1 = chunks1.len();
    let n2 = chunks2.len();
    let r1 = rest1.len();
    let r2 = rest2.len();
    assert((flatten(chunks1) + rest1).len() == (flatten(chunks2) + rest2).len());
    assert((flatten(chunks1) + rest1).len() == flatten(chunks1).len() + rest1.len());
    assert((flatten(chunks2) + rest2).len() == flatten(chunks2).len() + rest2.len());
    assert(flatten(chunks1).len() + r1 == flatten(chunks2).len() + r2);
    assert(n1 * size + r1 == n2 * size + r2);
    assert(n1 == n2) by (nonlinear_arith)
        requires
            n1 * size + r1 == n2 * size + r2,
            r1 < size,
            r2 < size,
    {
        if n1 < n2 {
            assert(n1 * size + size <= n2 * size);
        } else if n1 > n2 {
            assert(n2 * size + size <= n1 * size);
        }
    }
    let all = flatten(chunks1) + rest1;
    assert(rest1 =~= rest2) by {
        assert forall|m: int| 0 <= m < r1 implies rest1[m] == rest2[m] by {
            assert(all[n1 * size + m] == rest1[m]);
            assert((flatten(chunks2) + rest2)[n2 * size + m] == rest2[m]);
        }
    }
    assert forall|k: int| 0 <= k < n1 implies (#[trigger] chunks1[k])@ == chunks2[k]@ by {
        assert(chunks1[k]@.len() == size);
        assert(chunks2[k]@.len() == size);
        assert forall|j: int| 0 <= j < size implies chunks1[k]@[j] == chunks2[k]@[j] by {
            lemma_flatten_index(chunks1, size, k, j);
            lemma_flatten_index(chunks2, size, k, j);
            assert(all[k * size + j] == flatten(chunks1)[k * size + j]);
            assert((flatten(chunks2) + rest2)[k * size + j] == flatten(chunks2)[k * size + j]);
        }
        assert(chunks1[k]@ =~= chunks2[k]@);
    }
}


/// Flattening two runs of chunks one after the other gives their items one after the other.
pub proof fn lemma_flatten_append<T>(c1: Seq<Vec<T>>, c2: Seq<Vec<T>>)
    ensures
        flatten(c1 + c2) == flatten(c1) + flatten(c2),
    decreases c2.len(),
{
    if c2.len() == 0 {
        assert(c1 + c2 =~= c1);
        assert(flatten(c1) + flatten(c2) =~= flatten(c1));
    } else {
        lemma_flatten_append(c1, c2.drop_last());
        assert((c1 + c2).drop_last() =~= c1 + c2.drop_last());
        assert((c1 + c2).last() == c2.last());
        assert(flatten(c1 + c2) =~= flatten(c1) + flatten(c2.drop_last()) + c2.last()@);
        assert(flatten(c1) + flatten(c2) =~= flatten(c1) + (flatten(c2.drop_last()) + c2.last()@));
    }
}

/// Where the input is cut into pieces does not matter: feeding a normalizer `a`
/// and then `b` hands on the same chunks, and holds back the same items, as
/// feeding it `a` and `b` joined in one piece.
pub proof fn law_normalize_split_input<T>(
    pending: Seq<T>,
    a: Seq<T>,
    b: Seq<T>,
    size: nat,
    out_a: Seq<Vec<T>>,
    mid: Seq<T>,
    out_b: Seq<Vec<T>>,
    after: Seq<T>,
    out_ab: Seq<Vec<T>>,
    after_ab: Seq<T>,
)
    requires
        size > 0,
        pending.len() < size,
        all_sized(out_a, size),
        mid.len() < size,
        flatten(out_a) + mid == pending + a,
        all_sized(out_b, size),
        after.len() < size,
        flatten(out_b) + after == mid + b,
        all_sized(out_ab, size),
        after_ab.len() < size,
        flatten(out_ab) + after_ab == pending + (a + b),
    ensures
        (out_a + out_b).len() == out_ab.len(),
        forall|k: int| 0 <= k < out_ab.len() ==> (#[trigger] (out_a + out_b)[k])@ == out_ab[k]@,
        after == after_ab,
{
    let joined = out_a + out_b;
    lemma_flatten_append(out_a, out_b);
    assert(all_sized(joined, size)) by {
        assert forall|k: int| 0 <= k < joined.len() implies (#[trigger] joined[k])@.len() == size by {
            if k < out_a.len() {
                assert(joined[k] == out_a[k]);
            } else {
                assert(joined[k] == out_b[k - out_a.len()]);
            }
        }
    }
    assert(flatten(joined) + after =~= flatten(out_a) + (flatten(out_b) + after));
    assert(flatten(out_a) + (mid + b) =~= (flatten(out_a) + mid) + b);
    assert((pending + a) + b =~= pending + (a + b));
    law_chunking_unique(joined, after, out_ab, after_ab, size);
}


/// The total number of items in a run of inputs.
pub open spec fn total_len<T>(inputs: Seq<Seq<T>>) -> nat
    decreases inputs.len(),
{
    if inputs.len() == 0 {
        0
    } else {
        total_len(inputs.drop_last()) + inputs.last().len()
    }
}

/// The total number of chunks handed on over a run of calls.
pub open spec fn total_chunks<T>(outputs: Seq<Seq<Vec<T>>>) -> nat
    decreases outputs.len(),
{
    if outputs.len() == 0 {
        0
    } else {
        total_chunks(outputs.drop_last()) + outputs.last().len()
    }
}

/// One call of `normalize_chunk`: from `pending`, the input `input` hands on
/// `out` and leaves `after` held back.
pub open spec fn normalize_step<T>(pending: Seq<T>, input: Seq<T>, out: Seq<Vec<T>>, after: Seq<T>, size: nat) -> bool {
    &&& all_sized(out, size)
    &&& after.len() < size
    &&& flatten(out) + after == pending + input
}

/// A complete chunk is never held back: over any run of calls that starts from
/// an empty normalizer, the chunks handed on number the total input divided by
/// the chunk size, and the items held back number the remainder.
pub proof fn law_running_count<T>(
    inputs: Seq<Seq<T>>,
    outputs: Seq<Seq<Vec<T>>>,
    pendings: Seq<Seq<T>>,
    size: nat,
)
    requires
        size > 0,
        outputs.len() == inputs.len(),
        pendings.len() == inputs.len() + 1,
        pendings[0].len() == 0,
        forall|k: int|
            0 <= k < inputs.len() ==> #[trigger] normalize_step(
                pendings[k],
                inputs[k],
                outputs[k],
                pendings[k + 1],
                size,
            ),
    ensures
        total_chunks(outputs) == total_len(inputs) / size,
        pendings.last().len() == total_len(inputs) % size,
    decreases inputs.len(),
{
    let n = inputs.len() as int;
    if n == 0 {
        assert(pendings.last() == pendings[0]);
        assert(0nat / size == 0 && 0nat % size == 0) by (nonlinear_arith)
            requires
                size > 0,
        ;
    } else {
        let ins = inputs.drop_last();
        let outs = outputs.drop_last();
        let pends = pendings.drop_last();
        assert forall|k: int| 0 <= k < ins.len() implies #[trigger] normalize_step(
            pends[k],
            ins[k],
            outs[k],
            pends[k + 1],
            size,
        ) by {
            assert(normalize_step(pendings[k], inputs[k], outputs[k], pendings[k + 1], size));
        }
        law_running_count(ins, outs, pends, size);
        let total0 = total_len(ins);
        let count0 = total_chunks(outs);
        let p0 = pends.last().len();
        assert(pends.last() == pendings[n - 1]);
        assert(normalize_step(pendings[n - 1], inputs[n - 1], outputs[n - 1], pendings[n], size));
        let out = outputs[n - 1];
        let after = pendings[n];
        lemma_flatten_len(out, size);
        assert((flatten(out) + after).len() == (pendings[n - 1] + inputs[n - 1]).len());
        assert(out.len() * size + after.len() == p0 + inputs[n - 1].len());
        vstd::arithmetic::div_mod::lemma_fundamental_div_mod(total0 as int, size as int);
        assert(count0 * size + p0 == total0) by (nonlinear_arith)
            requires
                count0 == total0 / size,
                p0 == total0 % size,
                total0 == size * (total0 / size) + total0 % size,
        ;
        let count = count0 + out.len();
        let total = total0 + inputs[n - 1].len();
        assert(total_chunks(outputs) == count);
        assert(total_len(inputs) == total);
        assert(pendings.last() == after);
        assert(count * size + after.len() == total) by (nonlinear_arith)
            requires
                count0 * size + p0 == total0,
                out.len() * size + after.len() == p0 + inputs[n - 1].len(),
                count == count0 + out.len(),
                total == total0 + inputs[n - 1].len(),
        ;
        vstd::arithmetic::div_mod::lemma_fundamental_div_mod_converse(
            total as int,
            size as int,
            count as int,
            after.len() as int,
        );
    }
}

/// Collects incoming chunks of any length and hands them on in chunks of
/// `chunk_size` items, in order, holding back the items that do not yet make
/// up a whole chunk.
pub struct Normalizer<T> {
    next_chunk: Vec<T>,
    chunk_size: usize,
}

impl<T: Copy> Normalizer<T> {
    /// The items held back, waiting for the rest of their chunk.
    pub closed spec fn pending(&self) -> Seq<T> {
        self.next_chunk@
    }

    /// The size of the chunks handed on.
    pub closed spec fn size(&self) -> nat {
        self.chunk_size as nat
    }

    /// Fewer items are held back than make up a chunk.
    pub open spec fn wf(&self) -> bool {
        &&& self.size() > 0
        &&& self.pending().len() < self.size()
    }

    /// A normalizer that hands on chunks of `chunk_size` items and holds nothing yet.
    pub fn new(chunk_size: usize) -> (r: Self)
        requires
            chunk_size > 0,
        ensures
            r.wf(),
            r.size() == chunk_size,
            r.pending() == Seq::<T>::empty(),
    {
        Normalizer { next_chunk: Vec::new(), chunk_size }
    }

    /// The items held back, in order.
    pub fn pending_items(&self) -> (r: Vec<T>)
        ensures
            r@ == self.pending(),
    {
        let mut r: Vec<T> = Vec::new();
        let n = self.next_chunk.len();
        for k in 0..n
            invariant
                n == self.next_chunk@.len(),
                r@ == self.next_chunk@.take(k as int),
        {
            r.push(self.next_chunk[k]);
            assert(self.next_chunk@.take(k + 1) =~= self.next_chunk@.take(k as int).push(self.next_chunk@[k as int]));
        }
        assert(self.next_chunk@.take(n as int) =~= self.next_chunk@);
        r
    }

    /// Takes in one chunk of any length, a window of at most `chunk_size` items
    /// at a time, and returns the whole chunks that are complete after each window.
    pub fn normalize_chunk(&mut self, input_chunk: &[T]) -> (out: Vec<Vec<T>>)
        requires
            old(self).wf(),
            input_chunk@.len() + old(self).size() <= usize::MAX,
        ensures
            final(self).wf(),
            final(self).size() == old(self).size(),
            all_sized(out@, old(self).size()),
            flatten(out@) + final(self).pending() == old(self).pending() + input_chunk@,
            out@.len() == (old(self).pending().len() + input_chunk@.len()) / old(self).size(),
            final(self).pending().len() == (old(self).pending().len() + input_chunk@.len()) % old(self).size(),
    {
        let size = self.chunk_size;
        let input_len = input_chunk.len();
        let mut out: Vec<Vec<T>> = Vec::new();
        let mut i: usize = 0;
        while i < input_len
            invariant
                size == self.chunk_size,
                self.wf(),
                input_len == input_chunk@.len(),
                input_len + size <= usize::MAX,
                i <= input_len + size,
                all_sized(out@, size as nat),
                flatten(out@) + self.next_chunk@ == old(self).next_chunk@ + input_chunk@.take(
                    if i <= input_len { i as int } else { input_len as int },
                ),
            decreases input_len + size - i,
        {
            let end = if i + size < input_len { i + size } else { input_len };
            let ghost before = self.next_chunk@;
            let mut k = i;
            while k < end
                invariant
                    i <= k <= end,
                    end <= input_len,
                    end - i <= size,
                    size == self.chunk_size,
                    input_len == input_chunk@.len(),
                    self.next_chunk@ == before + input_chunk@.subrange(i as int, k as int),
                decreases end - k,
            {
                self.next_chunk.push(input_chunk[k]);
                assert(input_chunk@.subrange(i as int, k + 1) =~= input_chunk@.subrange(i as int, k as int).push(input_chunk@[k as int]));
                k += 1;
            }
            assert(input_chunk@.take(end as int) =~= input_chunk@.take(i as int) + input_chunk@.subrange(i as int, end as int));
            let ghost sub = input_chunk@.subrange(i as int, end as int);
            let ghost lhs_before = flatten(out@);
            assert(lhs_before + before == old(self).next_chunk@ + input_chunk@.take(i as int));
            assert(lhs_before + (before + sub) =~= (lhs_before + before) + sub);
            assert((old(self).next_chunk@ + input_chunk@.take(i as int)) + sub =~= old(self).next_chunk@ + (input_chunk@.take(i as int) + sub));
            assert(lhs_before + (before + sub) == old(self).next_chunk@ + input_chunk@.take(end as int));
            if self.next_chunk.len() >= size {
                let rest = self.next_chunk.split_off(size);
                let mut chunk = Vec::new();
                std::mem::swap(&mut chunk, &mut self.next_chunk);
                self.next_chunk = rest;
                let ghost prev_out = out@;
                out.push(chunk);
                assert(out@.drop_last() =~= prev_out);
                assert(chunk@ + rest@ =~= before + sub);
                assert(flatten(out@) == lhs_before + chunk@);
                assert(flatten(out@) + rest@ =~= lhs_before + (chunk@ + rest@));
            }
            i = i + size;
        }
        assert(input_chunk@.take(input_len as int) =~= input_chunk@);
        proof {
            lemma_flatten_len(out@, size as nat);
            let total = old(self).next_chunk@.len() + input_len;
            let q = out@.len();
            let r = self.next_chunk@.len();
            assert((flatten(out@) + self.next_chunk@).len() == total);
            assert(q * size + r == total);
            assert(q == total / (size as int) && r == total % (size as int)) by (nonlinear_arith)
                requires
                    q * size + r == total,
                    0 <= r < size,
                    size > 0,
                    q >= 0,
            {
                vstd::arithmetic::div_mod::lemma_fundamental_div_mod_converse(total, size as int, q as int, r as int);
            }
        }
        out
    }
}

} // verus!
