use vstd::prelude::*;

verus! {

/// The abstract state of the cipher: a table of 256 bytes and the two cursors.
pub ghost struct CipherView {
    pub perm: Seq<u8>,
    pub i: u8,
    pub j: u8,
}

/// Adds two bytes modulo 256.
pub open spec fn add8(a: u8, b: u8) -> u8 {
    ((a as int + b as int) % 256) as u8
}

/// `s` with the entries at `a` and `b` exchanged.
pub open spec fn swap_at(s: Seq<u8>, a: int, b: int) -> Seq<u8> {
    s.update(a, s[b]).update(b, s[a])
}

/// The table before key scheduling: entry `k` holds `k`.
pub open spec fn identity_table() -> Seq<u8> {
    Seq::new(256, |k: int| k as u8)
}

/// The table and the accumulator `j` after the first `n` rounds of key scheduling.
pub open spec fn schedule(key: Seq<u8>, n: nat) -> (Seq<u8>, u8)
    decreases n,
{
    if n == 0 {
        (identity_table(), 0u8)
    } else {
        let (p, j) = schedule(key, (n - 1) as nat);
        let i: int = n - 1;
        let j2 = add8(add8(j, p[i]), key[i % (key.len() as int)]);
        (swap_at(p, i, j2 as int), j2)
    }
}

/// The state that a key produces: all 256 rounds of key scheduling, both cursors at zero.
pub open spec fn initial(key: Seq<u8>) -> CipherView {
    CipherView { perm: schedule(key, 256).0, i: 0, j: 0 }
}

/// One step of the keystream generator: advance both cursors and swap their entries.
pub open spec fn step(s: CipherView) -> CipherView {
    let i = add8(s.i, 1);
    let j = add8(s.j, s.perm[i as int]);
    CipherView { perm: swap_at(s.perm, i as int, j as int), i, j }
}

/// The keystream byte that the step taken from `s` produces.
pub open spec fn output(s: CipherView) -> u8 {
    let t = step(s);
    t.perm[add8(t.perm[t.i as int], t.perm[t.j as int]) as int]
}

/// The state after `n` steps from `s`.
pub open spec fn advance(s: CipherView, n: nat) -> CipherView
    decreases n,
{
    if n == 0 {
        s
    } else {
        step(advance(s, (n - 1) as nat))
    }
}

/// The first `n` keystream bytes produced from `s`.
pub open spec fn keystream(s: CipherView, n: nat) -> Seq<u8>
    decreases n,
{
    if n == 0 {
        Seq::empty()
    } else {
        keystream(s, (n - 1) as nat).push(output(advance(s, (n - 1) as nat)))
    }
}

/// Byte-wise exclusive or of `a` with the first `a.len()` bytes of `k`.
pub open spec fn xor_bytes(a: Seq<u8>, k: Seq<u8>) -> Seq<u8> {
    Seq::new(a.len(), |x: int| a[x] ^ k[x])
}

/// What processing `data` from state `s` turns it into.
pub open spec fn apply(s: CipherView, data: Seq<u8>) -> Seq<u8> {
    xor_bytes(data, keystream(s, data.len()))
}

/// `d` with the `len` bytes at `start` processed from state `s` and the rest as it is.
pub open spec fn apply_at(s: CipherView, d: Seq<u8>, start: int, len: int) -> Seq<u8> {
    d.subrange(0, start) + apply(s, d.subrange(start, start + len)) + d.subrange(
        start + len,
        d.len() as int,
    )
}

/// `n` steps produce `n` keystream bytes.
pub proof fn lemma_keystream_len(s: CipherView, n: nat)
    ensures
        keystream(s, n).len() == n,
    decreases n,
{
    if n > 0 {
        lemma_keystream_len(s, (n - 1) as nat);
    }
}

/// `p` holds 256 entries, no two of them equal: a permutation of the byte values.
pub open spec fn is_permutation(p: Seq<u8>) -> bool {
    p.len() == 256 && forall|a: int, b: int| 0 <= a < b < 256 ==> p[a] != p[b]
}

proof fn lemma_swap_permutation(p: Seq<u8>, a: int, b: int)
    requires
        is_permutation(p),
        0 <= a < 256,
        0 <= b < 256,
    ensures
        is_permutation(swap_at(p, a, b)),
{
    let q = swap_at(p, a, b);
    assert forall|x: int, y: int| 0 <= x < y < 256 implies q[x] != q[y] by {
        let px = if x == b { a } else if x == a { b } else { x };
        let py = if y == b { a } else if y == a { b } else { y };
        assert(q[x] == p[px]);
        assert(q[y] == p[py]);
        assert(px != py);
        if px > py {
            assert(p[py] != p[px]);
        }
    }
}

proof fn lemma_schedule_permutation(key: Seq<u8>, n: nat)
    requires
        key.len() > 0,
        n <= 256,
    ensures
        is_permutation(schedule(key, n).0),
    decreases n,
{
    if n == 0 {
        assert forall|a: int, b: int| 0 <= a < b < 256 implies identity_table()[a]
            != identity_table()[b] by {}
    } else {
        lemma_schedule_permutation(key, (n - 1) as nat);
        let (p, j) = schedule(key, (n - 1) as nat);
        let i: int = n - 1;
        let j2 = add8(add8(j, p[i]), key[i % (key.len() as int)]);
        lemma_swap_permutation(p, i, j2 as int);
    }
}

proof fn lemma_advance_permutation(s: CipherView, n: nat)
    requires
        is_permutation(s.perm),
    ensures
        is_permutation(advance(s, n).perm),
    decreases n,
{
    if n > 0 {
        lemma_advance_permutation(s, (n - 1) as nat);
        let t = advance(s, (n - 1) as nat);
        let i = add8(t.i, 1);
        lemma_swap_permutation(t.perm, i as int, add8(t.j, t.perm[i as int]) as int);
    }
}

/// Every state that a key and any number of steps reach holds a permutation.
pub proof fn lemma_states_are_permutations(key: Seq<u8>, n: nat)
    requires
        1 <= key.len() <= 256,
    ensures
        is_permutation(advance(initial(key), n).perm),
{
    lemma_schedule_permutation(key, 256);
    lemma_advance_permutation(initial(key), n);
}

/// The bytes of `chunks` laid end to end.
pub open spec fn joined(chunks: Seq<Seq<u8>>) -> Seq<u8>
    decreases chunks.len(),
{
    if chunks.len() == 0 {
        Seq::empty()
    } else {
        joined(chunks.drop_last()) + chunks.last()
    }
}

/// What one engine starting at `s` turns `chunks` into when it processes them in order,
/// one call per chunk, laid end to end.
pub open spec fn apply_chunks(s: CipherView, chunks: Seq<Seq<u8>>) -> Seq<u8>
    decreases chunks.len(),
{
    if chunks.len() == 0 {
        Seq::empty()
    } else {
        let front = chunks.drop_last();
        apply_chunks(s, front) + apply(advance(s, joined(front).len()), chunks.last())
    }
}

proof fn lemma_xor_twice(a: u8, k: u8)
    ensures
        (a ^ k) ^ k == a,
{
    assert((a ^ k) ^ k == a) by (bit_vector);
}

/// The keystream of `m + n` bytes is the first `m` bytes followed by `n` bytes from the
/// state reached after `m` steps; taking `m` steps and then `n` is taking `m + n`.
pub proof fn lemma_keystream_concat(s: CipherView, m: nat, n: nat)
    ensures
        keystream(s, m + n) == keystream(s, m) + keystream(advance(s, m), n),
        advance(s, m + n) == advance(advance(s, m), n),
    decreases n,
{
    if n == 0 {
        assert(keystream(s, m) + Seq::<u8>::empty() =~= keystream(s, m));
    } else {
        lemma_keystream_concat(s, m, (n - 1) as nat);
        assert(keystream(s, m + n) == keystream(s, (m + n - 1) as nat).push(
            output(advance(s, (m + n - 1) as nat)),
        ));
        assert(keystream(s, m + n) =~= keystream(s, m) + keystream(advance(s, m), n));
    }
}

/// Processing the same bytes twice from the same keyed state gives the bytes back.
pub proof fn lemma_process_self_inverse(key: Seq<u8>, data: Seq<u8>)
    requires
        1 <= key.len() <= 256,
    ensures
        apply(initial(key), apply(initial(key), data)) == data,
{
    let s = initial(key);
    lemma_keystream_len(s, data.len());
    assert forall|x: int| 0 <= x < data.len() implies apply(s, apply(s, data))[x] == data[x] by {
        lemma_xor_twice(data[x], keystream(s, data.len())[x]);
    }
    assert(apply(s, apply(s, data)) =~= data);
}

/// Processing `a` and then `b` on one engine gives the bytes, and leaves the state, that
/// processing `a + b` in one call does.
pub proof fn lemma_process_split(s: CipherView, a: Seq<u8>, b: Seq<u8>)
    ensures
        apply(s, a) + apply(advance(s, a.len()), b) == apply(s, a + b),
        advance(advance(s, a.len()), b.len()) == advance(s, (a + b).len()),
{
    lemma_keystream_concat(s, a.len(), b.len());
    lemma_keystream_len(s, a.len());
    lemma_keystream_len(advance(s, a.len()), b.len());
    assert(apply(s, a) + apply(advance(s, a.len()), b) =~= apply(s, a + b));
}

/// Processing any partition of `data` into contiguous chunks, one call per chunk on one
/// engine, gives the bytes that one call over all of it does.
pub proof fn lemma_process_chunked(s: CipherView, chunks: Seq<Seq<u8>>)
    ensures
        apply_chunks(s, chunks) == apply(s, joined(chunks)),
    decreases chunks.len(),
{
    if chunks.len() == 0 {
        assert(apply(s, Seq::<u8>::empty()) =~= Seq::<u8>::empty());
    } else {
        let front = chunks.drop_last();
        lemma_process_chunked(s, front);
        lemma_process_split(s, joined(front), chunks.last());
    }
}

/// Two engines in the same state: one processes `prefix` in any contiguous chunks and then
/// `data`; the other processes `prefix + data` in one call. The bytes, laid end to end, are
/// the same, and so are the final states.
pub proof fn lemma_process_after_chunks(s: CipherView, chunks: Seq<Seq<u8>>, data: Seq<u8>)
    ensures
        apply_chunks(s, chunks) + apply(advance(s, joined(chunks).len()), data) == apply(
            s,
            joined(chunks) + data,
        ),
        advance(advance(s, joined(chunks).len()), data.len()) == advance(
            s,
            (joined(chunks) + data).len(),
        ),
{
    lemma_process_chunked(s, chunks);
    lemma_process_split(s, joined(chunks), data);
}

/// Encrypting `a + b` from a key, then on a fresh engine with that key discarding
/// `a.len()` keystream bytes (by processing any buffer `skip` of that length) and
/// processing the part of the ciphertext after `a`, gives `b` back.
pub proof fn lemma_skip_ahead(key: Seq<u8>, a: Seq<u8>, b: Seq<u8>, skip: Seq<u8>)
    requires
        1 <= key.len() <= 256,
        skip.len() == a.len(),
    ensures
        ({
            let c = apply(initial(key), a + b);
            apply(advance(initial(key), skip.len()), c.subrange(a.len() as int, c.len() as int))
                == b
        }),
{
    let s = initial(key);
    let t = advance(s, a.len());
    let c = apply(s, a + b);
    lemma_process_split(s, a, b);
    lemma_keystream_len(s, a.len());
    assert(c.subrange(a.len() as int, c.len() as int) =~= apply(t, b));
    lemma_keystream_len(t, b.len());
    assert forall|x: int| 0 <= x < b.len() implies apply(t, apply(t, b))[x] == b[x] by {
        lemma_xor_twice(b[x], keystream(t, b.len())[x]);
    }
    assert(apply(t, apply(t, b)) =~= b);
}

/// A stateful byte-oriented stream cipher: a 256-entry permutation and two cursors.
#[derive(Copy, Clone)]
pub struct RC4 {
    state: [u8; 256],
    index_i: u8,
    index_j: u8,
}

impl View for RC4 {
    type V = CipherView;

    closed spec fn view(&self) -> CipherView {
        CipherView { perm: self.state@, i: self.index_i, j: self.index_j }
    }
}

impl RC4 {
    /// The table is a permutation of the byte values.
    pub open spec fn wf(&self) -> bool {
        is_permutation(self@.perm)
    }

    /// Creates a cipher keyed with `key`.
    pub fn new(key: &[u8]) -> (r: Self)
        requires
            key@.len() > 0,
        ensures
            r@ == initial(key@),
            r.wf(),
    {
        let mut rc4 = RC4 { state: [0u8; 256], index_i: 0, index_j: 0 };
        rc4.init(key);
        rc4
    }

    /// Re-keys the cipher: runs key scheduling over `key` and resets both cursors.
    pub fn init(&mut self, key: &[u8])
        requires
            key@.len() > 0,
        ensures
            final(self)@ == initial(key@),
            final(self).wf(),
    {
        let mut state = [0u8; 256];
        let mut i: usize = 0;
        while i < 256
            invariant
                0 <= i <= 256,
                state@.len() == 256,
                forall|k: int| 0 <= k < i ==> state@[k] == k as u8,
            decreases 256 - i,
        {
            state[i] = i as u8;
            i = i + 1;
        }
        assert(state@ =~= identity_table());
        let mut index_j: u8 = 0;
        let len = key.len();
        let mut i: usize = 0;
        while i < 256
            invariant
                0 <= i <= 256,
                len == key@.len(),
                len > 0,
                state@.len() == 256,
                (state@, index_j) == schedule(key@, i as nat),
            decreases 256 - i,
        {
            let a = state[i];
            index_j = ((index_j as u16 + a as u16) % 256) as u8;
            index_j = ((index_j as u16 + key[i % len] as u16) % 256) as u8;
            let b = state[index_j as usize];
            state[i] = b;
            state[index_j as usize] = a;
            assert(state@ =~= swap_at(schedule(key@, i as nat).0, i as int, index_j as int));
            i = i + 1;
        }
        proof {
            lemma_schedule_permutation(key@, 256);
        }
        self.state = state;
        self.index_i = 0;
        self.index_j = 0;
    }

    /// Processes `len` bytes of `data` in place, starting at `start`, leaving the rest as it is.
    pub fn process_range(&mut self, data: &mut [u8], start: usize, len: usize)
        requires
            old(self).wf(),
            start + len <= old(data)@.len(),
        ensures
            final(self).wf(),
            final(self)@ == advance(old(self)@, len as nat),
            final(data)@ == apply_at(old(self)@, old(data)@, start as int, len as int),
    {
        let ghost s0 = self@;
        let ghost d0 = data@;
        let n = data.len();
        let mut k: usize = 0;
        proof {
            lemma_keystream_len(s0, 0);
        }
        while k < len
            invariant
                0 <= k <= len,
                start + len <= d0.len(),
                n == d0.len(),
                data@.len() == d0.len(),
                self@ == advance(s0, k as nat),
                self.state@.len() == 256,
                keystream(s0, k as nat).len() == k,
                forall|x: int|
                    0 <= x < d0.len() && !(start <= x < start + k) ==> data@[x] == d0[x],
                forall|x: int|
                    0 <= x < k ==> data@[start + x] == d0[start + x] ^ keystream(s0, k as nat)[x],
            decreases len - k,
        {
            let ghost before = self@;
            let ghost ks = keystream(s0, k as nat);
            self.index_i = ((self.index_i as u16 + 1) % 256) as u8;
            let i = self.index_i as usize;
            self.index_j = ((self.index_j as u16 + self.state[i] as u16) % 256) as u8;
            let j = self.index_j as usize;
            let a = self.state[i];
            let b = self.state[j];
            self.state[i] = b;
            self.state[j] = a;
            assert(self@ == step(before)) by {
                assert(self.state@ =~= swap_at(before.perm, i as int, j as int));
            }
            let sum = ((self.state[i] as u16 + self.state[j] as u16) % 256) as usize;
            let key_byte = self.state[sum];
            assert(key_byte == output(before));
            let idx = start + k;
            let byte = data[idx];
            data[idx] = byte ^ key_byte;
            proof {
                lemma_keystream_len(s0, (k + 1) as nat);
                assert(keystream(s0, (k + 1) as nat) == ks.push(key_byte));
            }
            k = k + 1;
        }
        proof {
            lemma_advance_permutation(s0, len as nat);
        }
        assert(data@ =~= d0.subrange(0, start as int) + apply(
            s0,
            d0.subrange(start as int, start + len),
        ) + d0.subrange(start + len, d0.len() as int));
    }

    /// Processes (encrypts or decrypts) `data` in place, continuing the keystream.
    pub fn process(&mut self, data: &mut [u8])
        requires
            old(self).wf(),
        ensures
            final(self).wf(),
            final(self)@ == advance(old(self)@, old(data)@.len()),
            final(data)@ == apply(old(self)@, old(data)@),
    {
        let len = data.len();
        self.process_range(data, 0, len);
        assert(data@ =~= apply(old(self)@, old(data)@));
    }
}

} // verus!
