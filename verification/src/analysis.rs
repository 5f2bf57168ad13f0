//! Worker-side pitch-family metadata: the bounded harmonic mask.
use vstd::prelude::*;

verus! {

/// Most pitch families a frame keeps.
pub const MAX_PITCH_FAMILIES: usize = 8;

/// Number of 64-bit words in a harmonic mask.
pub const HARMONIC_MASK_WORDS: usize = 64;

/// Number of spectral bins a harmonic mask covers.
pub const HARMONIC_MASK_BINS: usize = HARMONIC_MASK_WORDS * 64;

/// Bit `bit` of `word`.
pub open spec fn word_bit(word: u64, bit: int) -> bool {
    (word >> (bit as u64)) & 1u64 == 1u64
}

/// The mask after marking `bin` as `tonal`: bins past the mask are ignored.
pub open spec fn mask_after_set(bins: Seq<bool>, bin: int, tonal: bool) -> Seq<bool> {
    if 0 <= bin < HARMONIC_MASK_BINS {
        bins.update(bin, tonal)
    } else {
        bins
    }
}

/// Whether `bin` is marked tonal: bins past the mask never are.
pub open spec fn tonal_in(bins: Seq<bool>, bin: int) -> bool {
    0 <= bin < HARMONIC_MASK_BINS && bins[bin]
}

/// An all-clear mask.
pub open spec fn empty_mask() -> Seq<bool> {
    Seq::new(HARMONIC_MASK_BINS as nat, |i: int| false)
}

proof fn lemma_bit_test(word: u64, bit: u64)
    by (bit_vector)
    requires
        bit < 64,
    ensures
        ((word & (1u64 << bit)) != 0u64) == ((word >> bit) & 1u64 == 1u64),
{
}

proof fn lemma_bit_set(word: u64, bit: u64, other: u64)
    by (bit_vector)
    requires
        bit < 64,
        other < 64,
    ensures
        (((word | (1u64 << bit)) >> other) & 1u64 == 1u64) == (other == bit || (word >> other) & 1u64
            == 1u64),
{
}

proof fn lemma_bit_clear(word: u64, bit: u64, other: u64)
    by (bit_vector)
    requires
        bit < 64,
        other < 64,
    ensures
        (((word & !(1u64 << bit)) >> other) & 1u64 == 1u64) == (other != bit && (word >> other)
            & 1u64 == 1u64),
{
}

proof fn lemma_zero_bits(other: u64)
    by (bit_vector)
    requires
        other < 64,
    ensures
        (0u64 >> other) & 1u64 == 0u64,
{
}

/// A fixed-size set of spectral bins marked as tonal, one bit per bin.
#[derive(Clone, Copy, Debug, Eq, PartialEq)]
pub struct HarmonicMask {
    words: [u64; 64],
}

impl View for HarmonicMask {
    /// One flag per bin.
    type V = Seq<bool>;

    closed spec fn view(&self) -> Seq<bool> {
        Seq::new(
            HARMONIC_MASK_BINS as nat,
            |i: int| word_bit(self.words@[i / 64], i % 64),
        )
    }
}

impl Default for HarmonicMask {
    fn default() -> (r: Self)
        ensures
            r@ == empty_mask(),
            r@.len() == HARMONIC_MASK_BINS,
    {
        let r = HarmonicMask { words: [0u64; 64] };
        proof {
            assert forall|i: int| 0 <= i < HARMONIC_MASK_BINS implies !#[trigger] r@[i] by {
                lemma_zero_bits((i % 64) as u64);
            }
            assert(r@ =~= empty_mask());
        }
        r
    }
}

impl HarmonicMask {
    /// Every mask has one flag per bin.
    pub proof fn lemma_view_len(&self)
        ensures
            self@.len() == HARMONIC_MASK_BINS,
    {
    }

    /// Mark every bin as not tonal.
    pub fn clear(&mut self)
        ensures
            final(self)@ == empty_mask(),
            final(self)@.len() == HARMONIC_MASK_BINS,
    {
        let mut index: usize = 0;
        while index < HARMONIC_MASK_WORDS
            invariant
                index <= HARMONIC_MASK_WORDS,
                forall|j: int| 0 <= j < index ==> self.words@[j] == 0u64,
            decreases HARMONIC_MASK_WORDS - index,
        {
            self.words[index] = 0;
            index += 1;
        }
        proof {
            assert forall|i: int| 0 <= i < HARMONIC_MASK_BINS implies !#[trigger] self@[i] by {
                lemma_zero_bits((i % 64) as u64);
            }
            assert(self@ =~= empty_mask());
        }
    }

    /// Mark `bin` as tonal or not; a bin past the mask is ignored.
    pub fn set(&mut self, bin: usize, tonal: bool)
        ensures
            final(self)@ == mask_after_set(old(self)@, bin as int, tonal),
            old(self)@.len() == HARMONIC_MASK_BINS,
            final(self)@.len() == HARMONIC_MASK_BINS,
            bin < HARMONIC_MASK_BINS ==> tonal_in(final(self)@, bin as int) == tonal,
            forall|other: int|
                other != bin ==> tonal_in(final(self)@, other) == tonal_in(old(self)@, other),
            bin >= HARMONIC_MASK_BINS ==> *final(self) == *old(self),
    {
        if bin >= HARMONIC_MASK_BINS {
            return;
        }
        let word = bin / 64;
        let shift = (bin % 64) as u64;
        let bit = 1u64 << shift;
        let ghost before = self.words@[word as int];
        if tonal {
            self.words[word] = self.words[word] | bit;
        } else {
            self.words[word] = self.words[word] & !bit;
        }
        proof {
            let expected = mask_after_set(old(self)@, bin as int, tonal);
            assert forall|i: int| 0 <= i < HARMONIC_MASK_BINS implies #[trigger] self@[i] == expected[i] by {
                let o = (i % 64) as u64;
                if i / 64 == word as int {
                    if tonal {
                        lemma_bit_set(before, shift, o);
                    } else {
                        lemma_bit_clear(before, shift, o);
                    }
                    assert((i == bin as int) == (o == shift));
                }
            }
            assert(self@ =~= expected);
        }
    }

    /// Whether `bin` is marked tonal; bins past the mask never are.
    #[must_use]
    pub fn is_tonal(&self, bin: usize) -> (r: bool)
        ensures
            r == tonal_in(self@, bin as int),
            self@.len() == HARMONIC_MASK_BINS,
    {
        if bin >= HARMONIC_MASK_BINS {
            return false;
        }
        proof {
            lemma_bit_test(self.words@[bin as int / 64], (bin % 64) as u64);
        }
        self.words[bin / 64] & (1u64 << ((bin % 64) as u64)) != 0
    }
}

/// Candidate `a` ranks ahead of candidate `b`: a higher score, or an equal
/// score and an earlier position.
pub open spec fn ranks_ahead(scores: Seq<u32>, a: int, b: int) -> bool {
    scores[a] > scores[b] || (scores[a] == scores[b] && a < b)
}

/// `ranked` lists the best `MAX_PITCH_FAMILIES` of the first `n` candidates
/// (all of them if fewer), best first: a strictly ranked run that every
/// candidate left out ranks behind.
pub open spec fn is_top_ranking(scores: Seq<u32>, n: int, ranked: Seq<usize>) -> bool {
    &&& ranked.len() == (if n < MAX_PITCH_FAMILIES { n } else { MAX_PITCH_FAMILIES as int })
    &&& forall|i: int| 0 <= i < ranked.len() ==> #[trigger] ranked[i] < n
    &&& forall|i: int, j: int|
        0 <= i < j < ranked.len() ==> ranks_ahead(scores, #[trigger] ranked[i] as int, #[trigger] ranked[j] as int)
    &&& forall|j: int|
        0 <= j < n && !ranked.contains(j as usize) ==> {
            &&& ranked.len() == MAX_PITCH_FAMILIES
            &&& #[trigger] ranks_ahead(scores, ranked[MAX_PITCH_FAMILIES - 1] as int, j)
        }
}

proof fn lemma_ranks_ahead_transitive(scores: Seq<u32>, a: int, b: int, c: int)
    requires
        ranks_ahead(scores, a, b),
        ranks_ahead(scores, b, c),
    ensures
        ranks_ahead(scores, a, c),
{
}

/// Rank pitch candidates by score, keeping the best `MAX_PITCH_FAMILIES`,
/// best first, earlier candidates first among equal scores. Scores are the
/// bit patterns of positive finite `f32` scores, whose order they share.
pub fn rank_pitch_candidates(scores: &[u32]) -> (r: Vec<usize>)
    ensures
        is_top_ranking(scores@, scores@.len() as int, r@),
{
    let mut ranked: Vec<usize> = Vec::new();
    let mut c: usize = 0;
    while c < scores.len()
        invariant
            c <= scores@.len(),
            is_top_ranking(scores@, c as int, ranked@),
        decreases scores@.len() - c,
    {
        let key = scores[c];
        let mut p: usize = 0;
        while p < ranked.len() && !(key > scores[ranked[p]])
            invariant
                p <= ranked@.len(),
                ranked@.len() <= MAX_PITCH_FAMILIES,
                forall|i: int| 0 <= i < ranked@.len() ==> #[trigger] ranked@[i] < c,
                c < scores@.len(),
                key == scores@[c as int],
                forall|q: int| 0 <= q < p ==> scores@[#[trigger] ranked@[q] as int] >= key,
            decreases ranked@.len() - p,
        {
            p += 1;
        }
        let ghost old_ranked = ranked@;
        proof {
            assert forall|q: int| 0 <= q < p implies ranks_ahead(scores@, #[trigger] old_ranked[q] as int, c as int) by {
                assert(old_ranked[q] < c);
            }
            assert forall|q: int| p <= q < old_ranked.len() implies ranks_ahead(scores@, c as int, #[trigger] old_ranked[q] as int) by {
                if q > p {
                    assert(ranks_ahead(scores@, old_ranked[p as int] as int, old_ranked[q] as int));
                }
            }
        }
        if ranked.len() < MAX_PITCH_FAMILIES {
            ranked.insert(p, c);
            proof {
                let n = ranked@;
                assert(old_ranked.len() == c);
                assert forall|i: int, j: int|
                    0 <= i < j < n.len() implies ranks_ahead(scores@, #[trigger] n[i] as int, #[trigger] n[j] as int) by {
                    if j < p {
                        assert(n[i] == old_ranked[i] && n[j] == old_ranked[j]);
                    } else if j == p {
                        assert(n[i] == old_ranked[i]);
                    } else if i == p {
                        assert(n[j] == old_ranked[j - 1]);
                    } else if i < p {
                        assert(n[i] == old_ranked[i] && n[j] == old_ranked[j - 1]);
                    } else {
                        assert(n[i] == old_ranked[i - 1] && n[j] == old_ranked[j - 1]);
                    }
                }
                assert forall|i: int| 0 <= i < n.len() implies #[trigger] n[i] < c + 1 by {
                    if i < p {
                        assert(n[i] == old_ranked[i]);
                    } else if i > p {
                        assert(n[i] == old_ranked[i - 1]);
                    }
                }
                assert forall|j: int| 0 <= j < c + 1 implies #[trigger] n.contains(j as usize) by {
                    if j == c {
                        assert(n[p as int] == j as usize);
                    } else if !old_ranked.contains(j as usize) {
                        assert(ranks_ahead(scores@, old_ranked[MAX_PITCH_FAMILIES - 1] as int, j));
                    } else {
                        let k = choose|k: int| 0 <= k < old_ranked.len() && old_ranked[k] == j as usize;
                        if k < p {
                            assert(n[k] == j as usize);
                        } else {
                            assert(n[k + 1] == j as usize);
                        }
                    }
                }
                assert(is_top_ranking(scores@, c + 1, n));
            }
        } else if p < MAX_PITCH_FAMILIES {
            ranked.insert(p, c);
            let ghost inserted = ranked@;
            ranked.pop();
            proof {
                let n = ranked@;
                let dropped = old_ranked[MAX_PITCH_FAMILIES - 1];
                assert(n =~= inserted.subrange(0, MAX_PITCH_FAMILIES as int));
                assert forall|i: int, j: int|
                    0 <= i < j < n.len() implies ranks_ahead(scores@, #[trigger] n[i] as int, #[trigger] n[j] as int) by {
                    if j < p {
                        assert(n[i] == old_ranked[i] && n[j] == old_ranked[j]);
                    } else if j == p {
                        assert(n[i] == old_ranked[i]);
                    } else if i == p {
                        assert(n[j] == old_ranked[j - 1]);
                    } else if i < p {
                        assert(n[i] == old_ranked[i] && n[j] == old_ranked[j - 1]);
                    } else {
                        assert(n[i] == old_ranked[i - 1] && n[j] == old_ranked[j - 1]);
                    }
                }
                assert forall|i: int| 0 <= i < n.len() implies #[trigger] n[i] < c + 1 by {
                    if i < p {
                        assert(n[i] == old_ranked[i]);
                    } else if i > p {
                        assert(n[i] == old_ranked[i - 1]);
                    }
                }
                let last = n[MAX_PITCH_FAMILIES - 1];
                assert(ranks_ahead(scores@, last as int, dropped as int)) by {
                    if p == MAX_PITCH_FAMILIES - 1 {
                        assert(last == c);
                    } else {
                        assert(last == old_ranked[MAX_PITCH_FAMILIES - 2]);
                    }
                }
                assert forall|j: int| 0 <= j < c + 1 && !n.contains(j as usize) implies {
                    &&& n.len() == MAX_PITCH_FAMILIES
                    &&& #[trigger] ranks_ahead(scores@, n[MAX_PITCH_FAMILIES - 1] as int, j)
                } by {
                    if j == c {
                        assert(n[p as int] == c);
                    } else if j == dropped as int {
                    } else {
                        assert(!old_ranked.contains(j as usize)) by {
                            if old_ranked.contains(j as usize) {
                                let k = choose|k: int| 0 <= k < old_ranked.len() && old_ranked[k] == j as usize;
                                if k < p {
                                    assert(n[k] == j as usize);
                                } else {
                                    assert(k + 1 < MAX_PITCH_FAMILIES);
                                    assert(n[k + 1] == j as usize);
                                }
                            }
                        }
                        lemma_ranks_ahead_transitive(scores@, last as int, dropped as int, j);
                    }
                }
                assert(is_top_ranking(scores@, c + 1, n));
            }
        } else {
            proof {
                let n = ranked@;
                assert forall|j: int| 0 <= j < c + 1 && !n.contains(j as usize) implies {
                    &&& n.len() == MAX_PITCH_FAMILIES
                    &&& #[trigger] ranks_ahead(scores@, n[MAX_PITCH_FAMILIES - 1] as int, j)
                } by {
                    if j == c {
                        assert(ranks_ahead(scores@, n[MAX_PITCH_FAMILIES - 1] as int, c as int));
                    }
                }
                assert(is_top_ranking(scores@, c + 1, n));
            }
        }
        c += 1;
    }
    ranked
}

/// Marking a bin and reading it back gives the mark, and leaves every other
/// bin as it was; a bin past the mask stays unmarked whatever is written.
pub proof fn lemma_set_reads_back(before: Seq<bool>, bin: int, tonal: bool, probe: int)
    requires
        before.len() == HARMONIC_MASK_BINS,
    ensures
        tonal_in(mask_after_set(before, bin, tonal), probe) == if probe == bin {
            0 <= bin < HARMONIC_MASK_BINS && tonal
        } else {
            tonal_in(before, probe)
        },
{
}

/// A cleared mask has no tonal bin.
pub proof fn lemma_empty_mask_has_no_tonal_bin(probe: int)
    ensures
        !tonal_in(empty_mask(), probe),
{
}

} // verus!
