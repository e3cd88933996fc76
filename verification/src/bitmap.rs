//! Bitmaps of key codes: one bit per key, 32 keys to a word.
use vstd::prelude::*;

verus! {

/// Whether bit `k` of word `w` is set.
pub open spec fn bit(w: u32, k: u32) -> bool {
    (w >> k) & 1u32 == 1u32
}

proof fn lemma_bit_set(w: u32, j: u32, k: u32)
    requires
        j < 32,
        k < 32,
    ensures
        bit(w | (1u32 << j), k) == (k == j || bit(w, k)),
{
    assert(((w | (1u32 << j)) >> k) & 1u32 == 1u32 <==> (k == j || (w >> k) & 1u32 == 1u32))
        by (bit_vector)
        requires
            j < 32,
            k < 32,
    ;
}

proof fn lemma_bit_clear(w: u32, j: u32, k: u32)
    requires
        j < 32,
        k < 32,
    ensures
        bit(w & !(1u32 << j), k) == (k != j && bit(w, k)),
{
    assert(((w & !(1u32 << j)) >> k) & 1u32 == 1u32 <==> (k != j && (w >> k) & 1u32 == 1u32))
        by (bit_vector)
        requires
            j < 32,
            k < 32,
    ;
}

proof fn lemma_bit_and(a: u32, b: u32, k: u32)
    requires
        k < 32,
    ensures
        bit(a & b, k) == (bit(a, k) && bit(b, k)),
{
    assert(((a & b) >> k) & 1u32 == 1u32 <==> ((a >> k) & 1u32 == 1u32 && (b >> k) & 1u32 == 1u32))
        by (bit_vector)
        requires
            k < 32,
    ;
}

proof fn lemma_bit_zero(k: u32)
    requires
        k < 32,
    ensures
        !bit(0u32, k),
{
    assert((0u32 >> k) & 1u32 != 1u32) by (bit_vector);
}

/// Two words with the same 32 bits are the same word.
proof fn lemma_bits_determine(x: u32, y: u32)
    requires
        forall|k: u32| k < 32 ==> bit(x, k) == bit(y, k),
    ensures
        x == y,
{
    assert(bit(x, 0) == bit(y, 0));
    assert(bit(x, 1) == bit(y, 1));
    assert(bit(x, 2) == bit(y, 2));
    assert(bit(x, 3) == bit(y, 3));
    assert(bit(x, 4) == bit(y, 4));
    assert(bit(x, 5) == bit(y, 5));
    assert(bit(x, 6) == bit(y, 6));
    assert(bit(x, 7) == bit(y, 7));
    assert(bit(x, 8) == bit(y, 8));
    assert(bit(x, 9) == bit(y, 9));
    assert(bit(x, 10) == bit(y, 10));
    assert(bit(x, 11) == bit(y, 11));
    assert(bit(x, 12) == bit(y, 12));
    assert(bit(x, 13) == bit(y, 13));
    assert(bit(x, 14) == bit(y, 14));
    assert(bit(x, 15) == bit(y, 15));
    assert(bit(x, 16) == bit(y, 16));
    assert(bit(x, 17) == bit(y, 17));
    assert(bit(x, 18) == bit(y, 18));
    assert(bit(x, 19) == bit(y, 19));
    assert(bit(x, 20) == bit(y, 20));
    assert(bit(x, 21) == bit(y, 21));
    assert(bit(x, 22) == bit(y, 22));
    assert(bit(x, 23) == bit(y, 23));
    assert(bit(x, 24) == bit(y, 24));
    assert(bit(x, 25) == bit(y, 25));
    assert(bit(x, 26) == bit(y, 26));
    assert(bit(x, 27) == bit(y, 27));
    assert(bit(x, 28) == bit(y, 28));
    assert(bit(x, 29) == bit(y, 29));
    assert(bit(x, 30) == bit(y, 30));
    assert(bit(x, 31) == bit(y, 31));
    assert(x == y) by (bit_vector)
        requires
            (x >> 0u32) & 1u32 == 1u32 <==> (y >> 0u32) & 1u32 == 1u32,
            (x >> 1u32) & 1u32 == 1u32 <==> (y >> 1u32) & 1u32 == 1u32,
            (x >> 2u32) & 1u32 == 1u32 <==> (y >> 2u32) & 1u32 == 1u32,
            (x >> 3u32) & 1u32 == 1u32 <==> (y >> 3u32) & 1u32 == 1u32,
            (x >> 4u32) & 1u32 == 1u32 <==> (y >> 4u32) & 1u32 == 1u32,
            (x >> 5u32) & 1u32 == 1u32 <==> (y >> 5u32) & 1u32 == 1u32,
            (x >> 6u32) & 1u32 == 1u32 <==> (y >> 6u32) & 1u32 == 1u32,
            (x >> 7u32) & 1u32 == 1u32 <==> (y >> 7u32) & 1u32 == 1u32,
            (x >> 8u32) & 1u32 == 1u32 <==> (y >> 8u32) & 1u32 == 1u32,
            (x >> 9u32) & 1u32 == 1u32 <==> (y >> 9u32) & 1u32 == 1u32,
            (x >> 10u32) & 1u32 == 1u32 <==> (y >> 10u32) & 1u32 == 1u32,
            (x >> 11u32) & 1u32 == 1u32 <==> (y >> 11u32) & 1u32 == 1u32,
            (x >> 12u32) & 1u32 == 1u32 <==> (y >> 12u32) & 1u32 == 1u32,
            (x >> 13u32) & 1u32 == 1u32 <==> (y >> 13u32) & 1u32 == 1u32,
            (x >> 14u32) & 1u32 == 1u32 <==> (y >> 14u32) & 1u32 == 1u32,
            (x >> 15u32) & 1u32 == 1u32 <==> (y >> 15u32) & 1u32 == 1u32,
            (x >> 16u32) & 1u32 == 1u32 <==> (y >> 16u32) & 1u32 == 1u32,
            (x >> 17u32) & 1u32 == 1u32 <==> (y >> 17u32) & 1u32 == 1u32,
            (x >> 18u32) & 1u32 == 1u32 <==> (y >> 18u32) & 1u32 == 1u32,
            (x >> 19u32) & 1u32 == 1u32 <==> (y >> 19u32) & 1u32 == 1u32,
            (x >> 20u32) & 1u32 == 1u32 <==> (y >> 20u32) & 1u32 == 1u32,
            (x >> 21u32) & 1u32 == 1u32 <==> (y >> 21u32) & 1u32 == 1u32,
            (x >> 22u32) & 1u32 == 1u32 <==> (y >> 22u32) & 1u32 == 1u32,
            (x >> 23u32) & 1u32 == 1u32 <==> (y >> 23u32) & 1u32 == 1u32,
            (x >> 24u32) & 1u32 == 1u32 <==> (y >> 24u32) & 1u32 == 1u32,
            (x >> 25u32) & 1u32 == 1u32 <==> (y >> 25u32) & 1u32 == 1u32,
            (x >> 26u32) & 1u32 == 1u32 <==> (y >> 26u32) & 1u32 == 1u32,
            (x >> 27u32) & 1u32 == 1u32 <==> (y >> 27u32) & 1u32 == 1u32,
            (x >> 28u32) & 1u32 == 1u32 <==> (y >> 28u32) & 1u32 == 1u32,
            (x >> 29u32) & 1u32 == 1u32 <==> (y >> 29u32) & 1u32 == 1u32,
            (x >> 30u32) & 1u32 == 1u32 <==> (y >> 30u32) & 1u32 == 1u32,
            (x >> 31u32) & 1u32 == 1u32 <==> (y >> 31u32) & 1u32 == 1u32,
    ;
}

/// A set of key codes held as bits, 32 to a word.
pub struct KeyBitmap {
    words: Vec<u32>,
}

impl KeyBitmap {
    /// How many key codes the bitmap has room for: codes `0..capacity()`.
    pub closed spec fn capacity(&self) -> nat {
        self.words@.len() * 32
    }

    /// Whether key code `i` is in the bitmap.
    pub closed spec fn has(&self, i: int) -> bool {
        0 <= i < self.capacity() && bit(self.words@[i / 32], (i % 32) as u32)
    }
}

impl KeyBitmap {
    /// Every key in a bitmap is below its capacity.
    pub proof fn lemma_keys_below(&self)
        ensures
            forall|i: int| #[trigger] self@.contains(i) ==> 0 <= i < self.capacity(),
    {
    }
}

impl View for KeyBitmap {
    type V = Set<int>;

    open spec fn view(&self) -> Set<int> {
        Set::new(|i: int| self.has(i))
    }
}

proof fn lemma_index_split(i: usize)
    ensures
        i >> 5usize == i / 32,
        i & 31usize == i % 32,
{
    assert(i >> 5usize == i / 32) by (bit_vector);
    assert(i & 31usize == i % 32) by (bit_vector);
}

/// An empty bitmap with room for at least `s` keys: `(s + 31) / 32` words.
pub fn bitmap(s: usize) -> (m: KeyBitmap)
    requires
        s + 31 <= usize::MAX,
    ensures
        m.capacity() == (s + 31) / 32 * 32,
        m.capacity() >= s,
        m@ == Set::<int>::empty(),
{
    let n = (s + 31) / 32;
    let mut words: Vec<u32> = Vec::new();
    let mut j: usize = 0;
    while j < n
        invariant
            j <= n,
            words@.len() == j,
            forall|t: int| 0 <= t < j ==> words@[t] == 0u32,
        decreases n - j,
    {
        words.push(0u32);
        j += 1;
    }
    let m = KeyBitmap { words };
    assert forall|i: int| !m.has(i) by {
        if 0 <= i < m.capacity() {
            lemma_bit_zero((i % 32) as u32);
        }
    }
    assert(m@ =~= Set::<int>::empty());
    m
}

/// How two bitmaps are compared.
#[derive(Clone, Copy)]
pub enum EqMode {
    /// Every key of the first is in the second, word by word over the words both have.
    Has,
    /// The two are the same.
    Eq,
}

/// Every key of `a` below `limit` is in `b`.
pub open spec fn covered_below(a: Set<int>, b: Set<int>, limit: int) -> bool {
    forall|i: int| 0 <= i < limit && #[trigger] a.contains(i) ==> b.contains(i)
}

/// Compares two bitmaps. `Has`: every key of `m1` within the words both bitmaps
/// have is in `m2`. `Eq`: same size, same keys.
pub fn bitmap_eq(m1: &KeyBitmap, m2: &KeyBitmap, m: EqMode) -> (r: bool)
    ensures
        m is Has ==> (r == covered_below(
            m1@,
            m2@,
            if m1.capacity() <= m2.capacity() { m1.capacity() as int } else { m2.capacity() as int },
        )),
        m is Eq ==> (r == (m1.capacity() == m2.capacity() && m1@ == m2@)),
{
    let n1 = m1.words.len();
    let n2 = m2.words.len();
    match m {
        EqMode::Has => {
            let n = if n1 <= n2 { n1 } else { n2 };
            let mut w: usize = 0;
            while w < n
                invariant
                    n == (if n1 <= n2 { n1 } else { n2 }),
                    m is Has,
                    n <= n1 == m1.words@.len(),
                    n <= n2 == m2.words@.len(),
                    w <= n,
                    covered_below(m1@, m2@, w * 32),
                decreases n - w,
            {
                let a = m1.words[w];
                let b = m2.words[w];
                if a & b != a {
                    proof {
                        if !(exists|k: u32| k < 32 && bit(a, k) && !bit(b, k)) {
                            assert forall|k: u32| k < 32 implies bit(a & b, k) == bit(a, k) by {
                                lemma_bit_and(a, b, k);
                            }
                            lemma_bits_determine(a & b, a);
                        }
                        let k = choose|k: u32| k < 32 && bit(a, k) && !bit(b, k);
                        let i = w * 32 + k as int;
                        assert(i / 32 == w && i % 32 == k as int);
                        assert(m1@.contains(i) && !m2@.contains(i));
                        assert(i < n * 32);
                        let limit = if m1.capacity() <= m2.capacity() {
                            m1.capacity() as int
                        } else {
                            m2.capacity() as int
                        };
                        assert(m1.capacity() == n1 * 32);
                        assert(m2.capacity() == n2 * 32);
                        assert(limit == n * 32);
                        assert(!covered_below(m1@, m2@, limit));
                    }
                    return false;
                }
                proof {
                    assert forall|i: int| 0 <= i < (w + 1) * 32 && #[trigger] m1@.contains(i) implies m2@.contains(i) by {
                        if i >= w * 32 {
                            assert(i / 32 == w);
                            let k = (i % 32) as u32;
                            lemma_bit_and(a, b, k);
                        }
                    }
                }
                w += 1;
            }
            true
        },
        EqMode::Eq => {
            if n1 != n2 {
                return false;
            }
            let mut w: usize = 0;
            while w < n1
                invariant
                    n1 == m1.words@.len(),
                    n2 == m2.words@.len(),
                    n1 == n2,
                    m is Eq,
                    w <= n1,
                    forall|t: int| 0 <= t < w ==> m1.words@[t] == m2.words@[t],
                decreases n1 - w,
            {
                if m1.words[w] != m2.words[w] {
                    proof {
                        let (a, b) = (m1.words@[w as int], m2.words@[w as int]);
                        if forall|k: u32| k < 32 ==> bit(a, k) == bit(b, k) {
                            lemma_bits_determine(a, b);
                        }
                        let k = choose|k: u32| k < 32 && bit(a, k) != bit(b, k);
                        let i = w * 32 + k as int;
                        assert(i / 32 == w && i % 32 == k as int);
                        assert(m1@.contains(i) != m2@.contains(i));
                    }
                    return false;
                }
                w += 1;
            }
            assert(m1@ =~= m2@) by {
                assert forall|i: int| m1.has(i) == m2.has(i) by {
                    if 0 <= i < m1.capacity() {
                        assert(m1.words@[i / 32] == m2.words@[i / 32]);
                    }
                }
            }
            true
        },
    }
}

/// Puts key `i` in the bitmap (`v`) or takes it out (`!v`).
pub fn bitmap_set(m: &mut KeyBitmap, i: usize, v: bool)
    requires
        i < old(m).capacity(),
    ensures
        final(m).capacity() == old(m).capacity(),
        final(m)@ == (if v { old(m)@.insert(i as int) } else { old(m)@.remove(i as int) }),
{
    proof {
        lemma_index_split(i);
    }
    let idx = i >> 5;
    let pos = i & 31;
    let ghost before = m.words@;
    let ghost old_m = Set::new(|j: int| 0 <= j < before.len() * 32 && bit(before[j / 32], (j % 32) as u32));
    assert(old_m =~= old(m)@);
    let w = m.words[idx];
    let sh: u32 = pos as u32;
    let nw = if v { w | (1u32 << sh) } else { w & !(1u32 << sh) };
    m.words.set(idx, nw);
    proof {
        let target = if v { old_m.insert(i as int) } else { old_m.remove(i as int) };
        assert forall|j: int| m.has(j) == target.contains(j) by {
            if 0 <= j < m.capacity() {
                let k = (j % 32) as u32;
                if j / 32 == idx as int {
                    if v {
                        lemma_bit_set(w, sh, k);
                    } else {
                        lemma_bit_clear(w, sh, k);
                    }
                    assert((j == i as int) == (k == sh));
                } else {
                    assert(m.words@[j / 32] == before[j / 32]);
                }
            }
        }
        assert(m@ =~= target);
    }
}

/// The key codes listed in `keys`.
pub open spec fn code_set(keys: Seq<u16>) -> Set<int> {
    Set::new(|i: int| exists|t: int| 0 <= t < keys.len() && keys[t] as int == i)
}

/// Puts every key of `keys` in the bitmap.
pub fn bm_setup(m: &mut KeyBitmap, keys: Vec<u16>)
    requires
        forall|t: int| 0 <= t < keys@.len() ==> (keys@[t] as int) < old(m).capacity(),
    ensures
        final(m).capacity() == old(m).capacity(),
        final(m)@ == old(m)@.union(code_set(keys@)),
{
    let ghost start = m@;
    let mut t: usize = 0;
    while t < keys.len()
        invariant
            t <= keys@.len(),
            m.capacity() == old(m).capacity(),
            forall|u: int| 0 <= u < keys@.len() ==> (keys@[u] as int) < m.capacity(),
            m@ == start.union(code_set(keys@.take(t as int))),
        decreases keys@.len() - t,
    {
        let k = keys[t];
        bitmap_set(m, k as usize, true);
        proof {
            let pre = keys@.take(t as int);
            let now = keys@.take(t + 1);
            assert(code_set(now) =~= code_set(pre).insert(k as int)) by {
                assert(now[t as int] == k);
                assert forall|i: int| code_set(now).contains(i) implies code_set(pre).insert(k as int).contains(i) by {
                    let u = choose|u: int| 0 <= u < now.len() && now[u] as int == i;
                    if u < t {
                        assert(pre[u] == now[u]);
                    }
                }
                assert forall|i: int| code_set(pre).contains(i) implies code_set(now).contains(i) by {
                    let u = choose|u: int| 0 <= u < pre.len() && pre[u] as int == i;
                    assert(now[u] == pre[u]);
                }
            }
            assert(m@ =~= start.union(code_set(now)));
        }
        t += 1;
    }
    assert(keys@.take(keys@.len() as int) =~= keys@);
}

} // verus!
