//! A Mersenne Twister generator of 32-bit words.

use vstd::prelude::*;

verus! {

/// Number of words of state.
pub const STATE_WORDS: usize = 624;

/// Distance, in words, to the word that a word is mixed with when the state
/// is renewed.
pub const STATE_SHIFT: usize = 397;

/// The state of a generator: its words, and how many of them have been
/// handed out since they were last renewed.
pub struct TwisterState {
    pub words: Seq<u32>,
    pub used: int,
}

/// The word that follows `word` in a freshly seeded state.
pub open spec fn seed_next(word: u32) -> u32 {
    ((6069 * word) % 0x1_0000_0000) as u32
}

/// Word `i` of the state seeded with `seed`.
pub open spec fn seed_word(seed: u32, i: int) -> u32
    decreases i,
{
    if i <= 0 {
        seed
    } else {
        seed_next(seed_word(seed, i - 1))
    }
}

/// The state seeded with `seed`: every word derived from the one before it,
/// and all of them counted as used, so that the first draw renews them.
pub open spec fn seeded(seed: u32) -> TwisterState {
    TwisterState {
        words: Seq::new(STATE_WORDS as nat, |i: int| seed_word(seed, i)),
        used: STATE_WORDS as int,
    }
}

/// The top bit of `high` over the lower 31 bits of `low`, shifted down by
/// one, and scrambled when the bit shifted out was set.
pub open spec fn mix(high: u32, low: u32) -> u32 {
    let y = (high & 0x8000_0000u32) | (low & 0x7fff_ffffu32);
    if y & 1u32 == 1u32 {
        (y >> 1u32) ^ 0x9908_b0dfu32
    } else {
        y >> 1u32
    }
}

/// Word `k` of the renewal of `words`.  Each word is mixed from itself, its
/// successor and the word `STATE_SHIFT` places on, counted round the end;
/// where such a word lies before `k`, it is the renewed word that is used.
pub open spec fn renewed_word(words: Seq<u32>, k: int) -> u32
    decreases k,
{
    if k < 0 || k >= STATE_WORDS {
        0
    } else if k < STATE_WORDS - STATE_SHIFT {
        words[k + STATE_SHIFT] ^ mix(words[k], words[k + 1])
    } else if k < STATE_WORDS - 1 {
        renewed_word(words, k - (STATE_WORDS - STATE_SHIFT)) ^ mix(words[k], words[k + 1])
    } else {
        renewed_word(words, STATE_SHIFT - 1) ^ mix(words[k], renewed_word(words, 0))
    }
}

/// All words of `words`, renewed.
pub open spec fn renewed(words: Seq<u32>) -> Seq<u32> {
    Seq::new(STATE_WORDS as nat, |k: int| renewed_word(words, k))
}

/// The output word made from the state word `y`.
pub open spec fn temper(y: u32) -> u32 {
    let a = y ^ (y >> 11u32);
    let b = a ^ ((a << 7u32) & 0x9d2c_5680u32);
    let c = b ^ ((b << 15u32) & 0xefc6_0000u32);
    c ^ (c >> 18u32)
}

/// The state from which the next word is taken: `state` itself, or its
/// renewal when all its words are used.
pub open spec fn ready(state: TwisterState) -> TwisterState {
    if state.used >= STATE_WORDS {
        TwisterState { words: renewed(state.words), used: 0 }
    } else {
        state
    }
}

/// The state after one draw.
pub open spec fn drawn(state: TwisterState) -> TwisterState {
    TwisterState { words: ready(state).words, used: ready(state).used + 1 }
}

/// The word that one draw hands out.
pub open spec fn draw(state: TwisterState) -> u32 {
    temper(ready(state).words[ready(state).used])
}

/// A Mersenne Twister generator.
pub struct MersenneTwister {
    buffer: Vec<u32>,
    index: usize,
}

impl View for MersenneTwister {
    type V = TwisterState;

    closed spec fn view(&self) -> TwisterState {
        TwisterState { words: self.buffer@, used: self.index as int }
    }
}

impl Clone for MersenneTwister {
    fn clone(&self) -> (r: Self)
        ensures
            r@ == self@,
    {
        let mut buffer: Vec<u32> = Vec::new();
        let mut i: usize = 0;
        while i < self.buffer.len()
            invariant
                i <= self.buffer.len(),
                buffer@ == self.buffer@.take(i as int),
            decreases self.buffer.len() - i,
        {
            buffer.push(self.buffer[i]);
            i += 1;
        }
        proof {
            use_type_invariant(self);
            assert(buffer@ == self.buffer@);
        }
        MersenneTwister { buffer, index: self.index }
    }
}

fn mix_words(high: u32, low: u32) -> (r: u32)
    ensures
        r == mix(high, low),
{
    let y = (high & 0x8000_0000u32) | (low & 0x7fff_ffffu32);
    if y & 1u32 == 1u32 {
        (y >> 1u32) ^ 0x9908_b0dfu32
    } else {
        y >> 1u32
    }
}

impl MersenneTwister {
    #[verifier::type_invariant]
    spec fn well_formed(&self) -> bool {
        self.buffer@.len() == STATE_WORDS && self.index <= STATE_WORDS
    }

    /// The generator seeded with `seed`.
    pub fn with_seed(seed: u32) -> (r: Self)
        ensures
            r@ == seeded(seed),
    {
        let mut buffer: Vec<u32> = Vec::with_capacity(STATE_WORDS);
        buffer.push(seed);
        let mut i: usize = 1;
        while i < STATE_WORDS
            invariant
                1 <= i <= STATE_WORDS,
                buffer@.len() == i,
                forall|k: int| 0 <= k < i ==> buffer@[k] == seed_word(seed, k),
            decreases STATE_WORDS - i,
        {
            let product: u64 = 6069u64 * (buffer[i - 1] as u64);
            assert(product & 0xffff_ffffu64 == product % 0x1_0000_0000u64) by (bit_vector);
            let word = (product & 0xffff_ffffu64) as u32;
            assert(word == seed_next(buffer@[i - 1]));
            assert(seed_word(seed, i as int) == seed_next(seed_word(seed, i - 1)));
            buffer.push(word);
            i += 1;
        }
        assert(buffer@ == seeded(seed).words);
        MersenneTwister { buffer, index: STATE_WORDS }
    }

    fn renew(&mut self)
        ensures
            final(self)@ == (TwisterState { words: renewed(old(self)@.words), used: 0 }),
    {
        proof {
            use_type_invariant(&*self);
        }
        let ghost before = self.buffer@;
        let mut kk: usize = 0;
        while kk < STATE_WORDS - STATE_SHIFT
            invariant
                kk <= STATE_WORDS - STATE_SHIFT,
                self.buffer@.len() == STATE_WORDS,
                self.index <= STATE_WORDS,
                before.len() == STATE_WORDS,
                forall|k: int| 0 <= k < kk ==> self.buffer@[k] == renewed_word(before, k),
                forall|k: int| kk <= k < STATE_WORDS ==> self.buffer@[k] == before[k],
            decreases STATE_WORDS - kk,
        {
            let word = self.buffer[kk + STATE_SHIFT] ^ mix_words(
                self.buffer[kk],
                self.buffer[kk + 1],
            );
            self.buffer[kk] = word;
            kk += 1;
        }
        while kk < STATE_WORDS - 1
            invariant
                STATE_WORDS - STATE_SHIFT <= kk <= STATE_WORDS - 1,
                self.buffer@.len() == STATE_WORDS,
                self.index <= STATE_WORDS,
                before.len() == STATE_WORDS,
                forall|k: int| 0 <= k < kk ==> self.buffer@[k] == renewed_word(before, k),
                forall|k: int| kk <= k < STATE_WORDS ==> self.buffer@[k] == before[k],
            decreases STATE_WORDS - kk,
        {
            let word = self.buffer[kk - (STATE_WORDS - STATE_SHIFT)] ^ mix_words(
                self.buffer[kk],
                self.buffer[kk + 1],
            );
            assert(self.buffer@[kk - 227] == renewed_word(before, kk - 227));
            assert(renewed_word(before, kk as int) == renewed_word(before, kk - 227) ^ mix(
                before[kk as int],
                before[kk + 1],
            ));
            self.buffer[kk] = word;
            kk += 1;
        }
        let word = self.buffer[STATE_SHIFT - 1] ^ mix_words(
            self.buffer[STATE_WORDS - 1],
            self.buffer[0],
        );
        assert(self.buffer@[396] == renewed_word(before, 396));
        assert(self.buffer@[0] == renewed_word(before, 0));
        assert(self.buffer@[623] == before[623]);
        assert(renewed_word(before, 623) == renewed_word(before, 396) ^ mix(
            before[623],
            renewed_word(before, 0),
        ));
        self.buffer[STATE_WORDS - 1] = word;
        self.index = 0;
        assert(self.buffer@ == renewed(before));
    }

    fn next(&mut self) -> (word: u32)
        ensures
            final(self)@ == drawn(old(self)@),
            word == draw(old(self)@),
    {
        proof {
            use_type_invariant(&*self);
        }
        if self.index >= STATE_WORDS {
            self.renew();
        }
        proof {
            use_type_invariant(&*self);
        }
        let y = self.buffer[self.index];
        self.index += 1;
        let a = y ^ (y >> 11u32);
        let b = a ^ ((a << 7u32) & 0x9d2c_5680u32);
        let c = b ^ ((b << 15u32) & 0xefc6_0000u32);
        c ^ (c >> 18u32)
    }

    /// Draws the next word.
    pub fn raw(&mut self) -> (word: u32)
        ensures
            final(self)@ == drawn(old(self)@),
            word == draw(old(self)@),
    {
        self.next()
    }
}

} // verus!
