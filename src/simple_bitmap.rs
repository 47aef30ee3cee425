use vstd::prelude::*;

use crate::Bitmap;

verus! {

/// Whether bit `bit` of `word` is one.
pub open spec fn bit_is_set(word: u32, bit: u32) -> bool {
    (word >> bit) & 1u32 == 1u32
}

/// The word that holds the flag of `index`.
pub open spec fn word_of(index: u32) -> int {
    (index / 32) as int
}

/// The bit, within its word, that holds the flag of `index`.
pub open spec fn bit_of(index: u32) -> u32 {
    index % 32
}

/// Whether the flag of `index` is set in `words`; indices past the end are absent.
pub open spec fn holds(words: Seq<u32>, index: u32) -> bool {
    word_of(index) < words.len() && bit_is_set(words[word_of(index)], bit_of(index))
}

/// The indices whose flags are set in `words`.
pub open spec fn present_in(words: Seq<u32>) -> Set<u32> {
    Set::new(|i: u32| holds(words, i))
}

/// `words`, extended with zero words so that it reaches position `pos`.
pub open spec fn grown_to(words: Seq<u32>, pos: int) -> Seq<u32> {
    if pos < words.len() {
        words
    } else {
        words + Seq::new((pos + 1 - words.len()) as nat, |k: int| 0u32)
    }
}

/// The words after the flag of `index` is set in `words`.
pub open spec fn with_index(words: Seq<u32>, index: u32) -> Seq<u32> {
    let g = grown_to(words, word_of(index));
    g.update(word_of(index), g[word_of(index)] | (1u32 << bit_of(index)))
}

/// The word-wise OR of `a` and `b`, the shorter one read as followed by zero words.
pub open spec fn union_words(a: Seq<u32>, b: Seq<u32>) -> Seq<u32> {
    Seq::new(
        if a.len() >= b.len() { a.len() } else { b.len() },
        |k: int|
            if k < a.len() && k < b.len() {
                a[k] | b[k]
            } else if k < a.len() {
                a[k]
            } else {
                b[k]
            },
    )
}

/// `word` as 32 binary digits, most significant bit first.
pub open spec fn word_digits(word: u32) -> Seq<char> {
    Seq::new(32, |k: int| if bit_is_set(word, (31 - k) as u32) { '1' } else { '0' })
}

/// One line of binary digits for each word, in order.
pub open spec fn rendered(words: Seq<u32>) -> Seq<char>
    decreases words.len(),
{
    if words.len() == 0 {
        Seq::empty()
    } else {
        rendered(words.drop_last()) + word_digits(words.last()) + seq!['\n']
    }
}

/// Storage with no trailing zero word: it reaches no further than the highest flag set.
pub open spec fn trimmed(words: Seq<u32>) -> bool {
    words.len() == 0 || words.last() != 0u32
}

proof fn lemma_bit_of_or_single(w: u32, b: u32, c: u32)
    requires
        b < 32,
        c < 32,
    ensures
        bit_is_set(w | (1u32 << b), c) == (bit_is_set(w, c) || b == c),
        w | (1u32 << b) != 0u32,
        bit_is_set(w, b) ==> w | (1u32 << b) == w,
{
    assert(((w | (1u32 << b)) >> c) & 1u32 == 1u32 <==> (((w >> c) & 1u32 == 1u32) || b == c))
        by (bit_vector)
        requires
            b < 32,
            c < 32,
    ;
    assert(w | (1u32 << b) != 0u32) by (bit_vector)
        requires
            b < 32,
    ;
    assert((w >> b) & 1u32 == 1u32 ==> w | (1u32 << b) == w) by (bit_vector)
        requires
            b < 32,
    ;
}

proof fn lemma_bit_of_or(x: u32, y: u32, c: u32)
    ensures
        bit_is_set(x | y, c) == (bit_is_set(x, c) || bit_is_set(y, c)),
        x != 0u32 ==> x | y != 0u32,
        y != 0u32 ==> x | y != 0u32,
{
    assert((((x | y) >> c) & 1u32 == 1u32) <==> (((x >> c) & 1u32 == 1u32) || ((y >> c) & 1u32
        == 1u32))) by (bit_vector);
    assert(x != 0u32 ==> x | y != 0u32) by (bit_vector);
    assert(y != 0u32 ==> x | y != 0u32) by (bit_vector);
}

proof fn lemma_zero_word_holds_nothing(c: u32)
    ensures
        !bit_is_set(0u32, c),
{
    assert((0u32 >> c) & 1u32 != 1u32) by (bit_vector);
}

proof fn lemma_index_split(i: u32, j: u32)
    ensures
        i == j <==> (word_of(i) == word_of(j) && bit_of(i) == bit_of(j)),
        bit_of(i) < 32,
        word_of(i) < 0x800_0000,
{
}

pub(crate) proof fn lemma_with_index(words: Seq<u32>, index: u32)
    ensures
        present_in(with_index(words, index)) == present_in(words).insert(index),
        with_index(words, index).len() == if word_of(index) < words.len() {
            words.len() as int
        } else {
            word_of(index) + 1
        },
        trimmed(words) ==> trimmed(with_index(words, index)),
        holds(words, index) ==> with_index(words, index) == words,
{
    let w = word_of(index);
    let b = bit_of(index);
    let g = grown_to(words, w);
    let r = with_index(words, index);
    lemma_index_split(index, index);
    assert forall|k: int| 0 <= k < g.len() implies g[k] == if k < words.len() {
        words[k]
    } else {
        0u32
    } by {}
    assert forall|i: u32| #[trigger] holds(r, i) == (holds(words, i) || i == index) by {
        lemma_index_split(i, index);
        let c = bit_of(i);
        if word_of(i) == w {
            lemma_bit_of_or_single(g[w], b, c);
            if w >= words.len() {
                lemma_zero_word_holds_nothing(c);
            }
        } else if word_of(i) >= words.len() && word_of(i) < g.len() {
            lemma_zero_word_holds_nothing(c);
        }
    }
    assert(present_in(r) =~= present_in(words).insert(index));
    lemma_bit_of_or_single(g[w], b, b);
    if holds(words, index) {
        assert(r =~= words);
    }
}

pub(crate) proof fn lemma_union_words(a: Seq<u32>, b: Seq<u32>)
    ensures
        present_in(union_words(a, b)) == present_in(a).union(present_in(b)),
        trimmed(a) && trimmed(b) ==> trimmed(union_words(a, b)),
{
    let r = union_words(a, b);
    assert forall|i: u32| #[trigger] holds(r, i) == (holds(a, i) || holds(b, i)) by {
        let w = word_of(i);
        if w < a.len() && w < b.len() {
            lemma_bit_of_or(a[w], b[w], bit_of(i));
        }
    }
    assert(present_in(r) =~= present_in(a).union(present_in(b)));
    if a.len() > 0 && b.len() > 0 {
        lemma_bit_of_or(a.last(), b.last(), 0);
    }
}

/// Non-optimized implementation of a [Bitmap].
#[derive(Debug)]
pub struct SimpleBitmap {
    bits: Vec<u32>,
}

impl View for SimpleBitmap {
    type V = Set<u32>;

    open spec fn view(&self) -> Set<u32> {
        present_in(self.words())
    }
}

impl SimpleBitmap {
    /// The words of storage, in order; bit `b` of word `w` is the flag of index `32 * w + b`.
    pub closed spec fn words(&self) -> Seq<u32> {
        self.bits@
    }

    /// Storage grows only as far as the highest index ever set, and never shrinks.
    #[verifier::type_invariant]
    spec fn inv(&self) -> bool {
        trimmed(self.bits@)
    }

    /// An empty bitmap: no storage, no index present.
    pub fn new() -> (r: Self)
        ensures
            r.words() == Seq::<u32>::empty(),
            r@ == Set::<u32>::empty(),
    {
        let r = SimpleBitmap { bits: Vec::new() };
        assert(r@ =~= Set::<u32>::empty());
        r
    }

    /// A new bitmap in which an index is present iff it is present in `self` or in `other`.
    pub fn union(&self, other: &SimpleBitmap) -> (r: SimpleBitmap)
        ensures
            r.words() == union_words(self.words(), other.words()),
            r@ == self@.union(other@),
            trimmed(r.words()),
    {
        proof {
            use_type_invariant(self);
            use_type_invariant(other);
            lemma_union_words(self.bits@, other.bits@);
        }
        let left = &self.bits;
        let right = &other.bits;
        let n = if left.len() >= right.len() {
            left.len()
        } else {
            right.len()
        };
        let mut union: Vec<u32> = Vec::with_capacity(n);
        let mut i: usize = 0;
        while i < left.len() && i < right.len()
            invariant
                i <= left.len(),
                i <= right.len(),
                union@ =~= union_words(left@, right@).take(i as int),
            decreases left.len() - i,
        {
            union.push(left[i] | right[i]);
            i += 1;
        }
        while i < left.len()
            invariant
                i <= left.len(),
                i >= right.len() || i == left.len(),
                union@ =~= union_words(left@, right@).take(i as int),
            decreases left.len() - i,
        {
            union.push(left[i]);
            i += 1;
        }
        while i < right.len()
            invariant
                i <= n,
                n == union_words(left@, right@).len(),
                i >= left.len(),
                union@ =~= union_words(left@, right@).take(i as int),
            decreases right.len() - i,
        {
            union.push(right[i]);
            i += 1;
        }
        assert(union@ =~= union_words(left@, right@));
        SimpleBitmap { bits: union }
    }

    /// A diagnostic text: each word as 32 binary digits, most significant bit first, one line
    /// per word. The layout is not a format that other code should parse.
    pub fn render(&self) -> (r: Vec<char>)
        ensures
            r@ == rendered(self.words()),
    {
        let mut out: Vec<char> = Vec::new();
        let mut i: usize = 0;
        while i < self.bits.len()
            invariant
                i <= self.bits.len(),
                out@ == rendered(self.bits@.take(i as int)),
            decreases self.bits.len() - i,
        {
            let word = self.bits[i];
            let ghost start = out@;
            let mut b: u32 = 32;
            while b > 0
                invariant
                    b <= 32,
                    out@ =~= start + word_digits(word).take(32 - b),
                decreases b,
            {
                b -= 1;
                if (word >> b) & 1 == 1 {
                    out.push('1');
                } else {
                    out.push('0');
                }
            }
            out.push('\n');
            proof {
                assert(self.bits@.take(i + 1).drop_last() =~= self.bits@.take(i as int));
                assert(word_digits(word).take(32) =~= word_digits(word));
            }
            i += 1;
        }
        assert(self.bits@.take(i as int) =~= self.bits@);
        out
    }
}

impl Clone for SimpleBitmap {
    fn clone(&self) -> (r: Self)
        ensures
            r.words() == self.words(),
            trimmed(r.words()),
    {
        proof {
            use_type_invariant(self);
        }
        let bits = self.bits.clone();
        assert(bits@ =~= self.bits@);
        SimpleBitmap { bits }
    }
}

impl Bitmap for SimpleBitmap {
    open spec fn present(&self) -> Set<u32> {
        self@
    }

    fn set(&mut self, index: u32)
        ensures
            final(self).words() == with_index(old(self).words(), index),
            trimmed(final(self).words()),
    {
        proof {
            use_type_invariant(&*self);
            lemma_with_index(self.bits@, index);
            lemma_index_split(index, index);
            assert(index & 31u32 == index % 32) by (bit_vector);
        }
        let pos = (index / 32) as usize;
        let bit: u32 = index & 0b11111;
        let mut bits: Vec<u32> = Vec::new();
        std::mem::swap(&mut bits, &mut self.bits);
        if pos >= bits.len() {
            bits.resize(pos + 1, 0);
        }
        let stored = bits[pos];
        let modified = stored | (1u32 << bit);
        bits.set(pos, modified);
        assert(bits@ =~= with_index(old(self).bits@, index));
        self.bits = bits;
    }

    fn get(&self, index: u32) -> (r: bool) {
        proof {
            lemma_index_split(index, index);
            assert(index & 31u32 == index % 32) by (bit_vector);
        }
        let pos = (index / 32) as usize;
        if pos < self.bits.len() {
            let bit: u32 = index & 0b11111;
            (self.bits[pos] >> bit) & 0b1 == 1
        } else {
            false
        }
    }
}

/// The `|` operator on bitmaps; its contract stands on `bitor` itself, since two bitmaps
/// with equal words are not provably the same value.
impl vstd::std_specs::ops::BitOrSpecImpl for SimpleBitmap {
    open spec fn obeys_bitor_spec() -> bool {
        false
    }

    open spec fn bitor_req(self, rhs: SimpleBitmap) -> bool {
        true
    }

    open spec fn bitor_spec(self, rhs: SimpleBitmap) -> SimpleBitmap {
        choose|r: SimpleBitmap| r.words() == union_words(self.words(), rhs.words())
    }
}

impl core::ops::BitOr for SimpleBitmap {
    type Output = SimpleBitmap;

    fn bitor(self, rhs: SimpleBitmap) -> (r: SimpleBitmap)
        ensures
            r.words() == union_words(self.words(), rhs.words()),
            r@ == self@.union(rhs@),
    {
        self.union(&rhs)
    }
}

} // verus!
