//! The deterministic random number generator of a game.
//!
//! A `GameRng` is a ChaCha8 stream seeded from 64 bits. It can be forked:
//! the k-th fork of a generator is seeded from the parent's seed and k
//! alone, so a search can take as many snapshots of a game as it likes and
//! each gets a stream of its own, the same in every run. Its state is three
//! numbers, however much has been drawn.

use rand::seq::SliceRandom;
use rand::Rng;
use rand::RngCore;
use rand::SeedableRng;
use rand_chacha::ChaCha8Rng;
use std::collections::hash_map::DefaultHasher;
use std::hash::Hash;
use std::hash::Hasher;
use vstd::prelude::*;
use vstd::std_specs::hash::DefaultHasherAdditionalSpecFns;

verus! {

/// `rand_chacha::ChaCha8Rng`, the stream behind a `GameRng`. Nothing is
/// said of what is inside.
#[verifier::external_type_specification]
#[verifier::external_body]
pub struct ExChaCha8Rng(ChaCha8Rng);

/// How many 32-bit words of its stream a ChaCha8 generator has given out.
pub uninterp spec fn word_position(generator: ChaCha8Rng) -> u128;

/// The 64-bit seed whose stream a ChaCha8 generator is on: the generator
/// gives, from its word position on, the words of the generator that
/// `seed_from_u64` makes of that seed. `None` where there is no such seed.
pub uninterp spec fn stream_seed(generator: ChaCha8Rng) -> Option<u64>;

/// The 32 bits that `next_u32` gives on the stream of a seed at a word
/// position.
pub uninterp spec fn word_at(seed: u64, position: u128) -> u32;

/// The 64 bits that `next_u64` gives on the stream of a seed at a word
/// position: the word there in the lower half, the next word in the
/// upper half.
pub open spec fn words_at(seed: u64, position: u128) -> u64 {
    (word_at(seed, position) as u64) | ((word_at(
        seed,
        ((position + 1) % (stream_words() as int)) as u128,
    ) as u64) << 32)
}

/// What `gen_range` draws from a half-open range of `i32` on the stream of
/// a seed at a word position, and the word position after the draw.
pub uninterp spec fn ranged(seed: u64, position: u128, low: i32, high: i32) -> (i32, u128);

/// What `gen_range` draws from a half-open range of `usize` on the stream
/// of a seed at a word position, where `usize` has `bits` bits, and the
/// word position after the draw.
pub uninterp spec fn indexed(seed: u64, position: u128, low: usize, high: usize, bits: u32) -> (
    usize,
    u128,
);

/// The order that `shuffle` gives to `len` items on the stream of a seed
/// at a word position, as the earlier place of the item at each place,
/// and the word position after the shuffle.
pub uninterp spec fn shuffled(seed: u64, position: u128, len: nat) -> (Seq<int>, u128);

/// The place that `choose` picks among `len` items on the stream of a seed
/// at a word position, and the word position after the choice.
pub uninterp spec fn picked(seed: u64, position: u128, len: nat) -> (int, u128);

/// Whether `after` holds the items of `before` in the given order: at each
/// place the item that was at the place that `order` names.
pub open spec fn arranged<T>(before: Seq<T>, after: Seq<T>, order: Seq<int>) -> bool {
    &&& after.len() == before.len()
    &&& order.len() == before.len()
    &&& forall|place: int|
        0 <= place < after.len() ==> 0 <= #[trigger] order[place] < before.len() && after[place]
            == before[order[place]]
}

/// The word positions of a stream: it cycles after 2^68 words.
pub open spec fn stream_words() -> u128 {
    0x10_0000_0000_0000_0000u128
}

/// The multiplier that spreads fork counters over the seeds.
pub open spec fn fork_stride() -> u64 {
    0x9E37_79B9_7F4A_7C15
}

/// The seed of the `counter`-th fork of a generator seeded with `seed`.
pub open spec fn fork_seed(seed: u64, counter: u64) -> u64 {
    seed.wrapping_add(counter.wrapping_mul(fork_stride()))
}

/// `ChaCha8Rng::seed_from_u64`: a generator at the start of its stream.
#[verifier::external_body]
fn chacha_from_seed(seed: u64) -> (generator: ChaCha8Rng)
    ensures
        word_position(generator) == 0,
        stream_seed(generator) == Some(seed),
{
    ChaCha8Rng::seed_from_u64(seed)
}

/// `ChaCha8Rng::get_word_pos`: the position in the stream, a 68-bit number.
#[verifier::external_body]
fn chacha_word_pos(generator: &ChaCha8Rng) -> (position: u128)
    ensures
        position == word_position(*generator),
        position < stream_words(),
{
    generator.get_word_pos()
}

/// `ChaCha8Rng::set_word_pos`: moves to a position in the same stream; the
/// bits above the 68th are ignored.
#[verifier::external_body]
fn chacha_set_word_pos(generator: &mut ChaCha8Rng, position: u128)
    ensures
        word_position(*final(generator)) == position % stream_words(),
        stream_seed(*final(generator)) == stream_seed(*old(generator)),
{
    generator.set_word_pos(position);
}

/// `ChaCha8Rng::clone`: a generator at the same place of the same stream.
#[verifier::external_body]
fn chacha_clone(generator: &ChaCha8Rng) -> (copy: ChaCha8Rng)
    ensures
        word_position(copy) == word_position(*generator),
        stream_seed(copy) == stream_seed(*generator),
{
    generator.clone()
}

/// `Rng::gen_range` on a half-open range of `i32`: a number in the range.
/// The number, and how far the draw moves the generator on, depend on the
/// stream, the place in it and the range alone.
#[verifier::external_body]
fn chacha_range_i32(generator: &mut ChaCha8Rng, low: i32, high: i32) -> (drawn: i32)
    requires
        low < high,
    ensures
        low <= drawn < high,
        stream_seed(*final(generator)) == stream_seed(*old(generator)),
        stream_seed(*old(generator)) matches Some(seed) ==> drawn == ranged(
            seed,
            word_position(*old(generator)),
            low,
            high,
        ).0,
        stream_seed(*old(generator)) matches Some(seed) ==> word_position(*final(generator))
            == ranged(seed, word_position(*old(generator)), low, high).1,    no_unwind
{
    generator.gen_range(low..high)
}

/// `Rng::gen_range` on a half-open range of `usize`: a number in the range,
/// drawn from the same stream. The number, and how far the draw moves the
/// generator on, depend on the stream, the place in it, the range and
/// the width of `usize`.
#[verifier::external_body]
fn chacha_range_usize(generator: &mut ChaCha8Rng, low: usize, high: usize) -> (drawn: usize)
    requires
        low < high,
    ensures
        low <= drawn < high,
        stream_seed(*final(generator)) == stream_seed(*old(generator)),
        stream_seed(*old(generator)) matches Some(seed) ==> drawn == indexed(
            seed,
            word_position(*old(generator)),
            low,
            high,
            usize::BITS,
        ).0,
        stream_seed(*old(generator)) matches Some(seed) ==> word_position(*final(generator))
            == indexed(seed, word_position(*old(generator)), low, high, usize::BITS).1,    no_unwind
{
    generator.gen_range(low..high)
}

/// `SliceRandom::shuffle`: the same items, in an order that depends on the
/// stream, the place in it and the number of items alone, as does how far
/// the shuffle moves the generator on.
#[verifier::external_body]
fn chacha_shuffle<T>(generator: &mut ChaCha8Rng, items: &mut Vec<T>)
    ensures
        final(items)@.to_multiset() == old(items)@.to_multiset(),
        stream_seed(*final(generator)) == stream_seed(*old(generator)),
        stream_seed(*old(generator)) matches Some(seed) ==> arranged(
            old(items)@,
            final(items)@,
            shuffled(seed, word_position(*old(generator)), old(items)@.len()).0,
        ),
        stream_seed(*old(generator)) matches Some(seed) ==> word_position(*final(generator))
            == shuffled(seed, word_position(*old(generator)), old(items)@.len()).1,    no_unwind
{
    items.shuffle(generator);
}

/// `SliceRandom::choose`: one of the items, or nothing where there is none.
/// The place of the item, and how far the choice moves the generator on,
/// depend on the stream, the place in it and the number of items alone.
#[verifier::external_body]
fn chacha_choose<'a, T>(generator: &mut ChaCha8Rng, items: &'a [T]) -> (chosen: Option<&'a T>)
    ensures
        chosen is None <==> items@.len() == 0,
        chosen matches Some(item) ==> items@.contains(*item),
        stream_seed(*final(generator)) == stream_seed(*old(generator)),
        chosen matches Some(item) ==> (stream_seed(*old(generator)) matches Some(seed) ==> {
            let place = picked(seed, word_position(*old(generator)), items@.len()).0;
            0 <= place < items@.len() && *item == items@[place]
        }),
        chosen is Some ==> (stream_seed(*old(generator)) matches Some(seed) ==> word_position(
            *final(generator),
        ) == picked(seed, word_position(*old(generator)), items@.len()).1),
        chosen is None ==> word_position(*final(generator)) == word_position(*old(generator)),    no_unwind
{
    items.choose(generator)
}

/// `RngCore::next_u32`: the next word of the stream; the generator is one
/// word further on the same stream.
#[verifier::external_body]
fn chacha_next_u32(generator: &mut ChaCha8Rng) -> (word: u32)
    ensures
        stream_seed(*final(generator)) == stream_seed(*old(generator)),
        word_position(*final(generator)) == (word_position(*old(generator)) + 1) % (
        stream_words() as int),
        stream_seed(*old(generator)) matches Some(seed) ==> word == word_at(
            seed,
            word_position(*old(generator)),
        ),    no_unwind
{
    generator.next_u32()
}

/// `RngCore::next_u64`: the next two words of the stream; the generator
/// is two words further on the same stream.
#[verifier::external_body]
fn chacha_next_u64(generator: &mut ChaCha8Rng) -> (words: u64)
    ensures
        stream_seed(*final(generator)) == stream_seed(*old(generator)),
        word_position(*final(generator)) == (word_position(*old(generator)) + 2) % (
        stream_words() as int),
        stream_seed(*old(generator)) matches Some(seed) ==> words == words_at(
            seed,
            word_position(*old(generator)),
        ),    no_unwind
{
    generator.next_u64()
}

/// What `Hash::hash` of a `u64` writes into a hasher, on a machine whose
/// byte order is little-endian or not.
pub uninterp spec fn number_fed(number: u64, little_endian: bool) -> Seq<Seq<u8>>;

/// What `Hash::hash` of a `str` writes into a hasher.
pub uninterp spec fn text_fed(text: Seq<char>) -> Seq<Seq<u8>>;

/// Whether the machine at hand keeps its bytes in little-endian order.
pub open spec fn little_endian() -> bool {
    vstd::endian::endianness() is Little
}

/// The seed of a generator for a named purpose: std's default hash of
/// the parent's seed and then the name.
pub open spec fn context_hash(seed: u64, context: Seq<char>, little_endian: bool) -> u64 {
    DefaultHasher::spec_finish(number_fed(seed, little_endian) + text_fed(context))
}

/// `Hash::hash` of a `u64`: the number is written into the hasher, after
/// what was written before. What is written depends on the number and
/// on the machine's byte order alone.
#[verifier::external_body]
fn hash_number(hasher: &mut DefaultHasher, number: u64)
    ensures
        final(hasher)@ == old(hasher)@ + number_fed(number, little_endian()),
{
    number.hash(hasher);
}

/// `Hash::hash` of a `str`: the text is written into the hasher, after
/// what was written before. What is written depends on the text alone.
#[verifier::external_body]
fn hash_text(hasher: &mut DefaultHasher, text: &str)
    ensures
        final(hasher)@ == old(hasher)@ + text_fed(text@),
{
    text.hash(hasher);
}

/// The seed of a generator for a named purpose: std's default hash of
/// the parent's seed and then the name.
fn context_seed(seed: u64, context: &str) -> (hash: u64)
    ensures
        hash == context_hash(seed, context@, little_endian()),
{
    let mut hasher = DefaultHasher::new();
    hash_number(&mut hasher, seed);
    hash_text(&mut hasher, context);
    proof {
        assert(hasher@ =~= number_fed(seed, little_endian()) + text_fed(context@));
    }
    hasher.finish()
}

/// The state of a generator: enough to continue its stream elsewhere.
#[derive(Clone, Copy, Debug, PartialEq, Eq, Structural)]
pub struct GameRngState {
    /// The seed of the stream.
    pub seed: u64,
    /// How many 32-bit words have been drawn from it.
    pub word_pos: u128,
    /// How many forks have been taken.
    pub fork_counter: u64,
}

/// A seeded generator that can be forked and whose state is three numbers.
#[derive(Debug)]
pub struct GameRng {
    inner: ChaCha8Rng,
    seed: u64,
    fork_counter: u64,
}

impl View for GameRng {
    type V = GameRngState;

    closed spec fn view(&self) -> GameRngState {
        GameRngState {
            seed: self.seed,
            word_pos: word_position(self.inner),
            fork_counter: self.fork_counter,
        }
    }
}

/// The state that `GameRng::from_state` restores from a stored one.
pub open spec fn restored(state: GameRngState) -> GameRngState {
    GameRngState {
        seed: state.seed,
        word_pos: state.word_pos % stream_words(),
        fork_counter: state.fork_counter,
    }
}

impl GameRng {
    /// The generator draws from the stream of its seed.
    #[verifier::type_invariant]
    spec fn on_its_stream(self) -> bool {
        stream_seed(self.inner) == Some(self.seed)
    }

    /// A generator at the start of the stream of `seed`, with no forks
    /// taken.
    pub fn new(seed: u64) -> (rng: Self)
        ensures
            rng@ == (GameRngState { seed, word_pos: 0, fork_counter: 0 }),
    {
        GameRng { inner: chacha_from_seed(seed), seed, fork_counter: 0 }
    }

    /// Takes the next fork: a fresh generator whose seed is made from this
    /// generator's seed and the number of the fork. Nothing is drawn.
    pub fn fork(&mut self) -> (child: Self)
        ensures
            final(self)@ == (GameRngState {
                fork_counter: old(self)@.fork_counter.wrapping_add(1),
                ..old(self)@
            }),
            child@ == (GameRngState {
                seed: fork_seed(old(self)@.seed, old(self)@.fork_counter.wrapping_add(1)),
                word_pos: 0,
                fork_counter: 0,
            }),
    {
        proof {
            use_type_invariant(&*self);
        }
        self.fork_counter = self.fork_counter.wrapping_add(1);
        let seed = self.seed.wrapping_add(self.fork_counter.wrapping_mul(0x9E37_79B9_7F4A_7C15));
        GameRng { inner: chacha_from_seed(seed), seed, fork_counter: 0 }
    }

    /// A fresh generator for a named purpose. Its seed is std's default
    /// hash of this generator's seed and then the name; it is the same
    /// for the same seed and name wherever the byte order is the same.
    pub fn for_context(&self, context: &str) -> (child: Self)
        ensures
            child@ == (GameRngState {
                seed: context_hash(self@.seed, context@, little_endian()),
                word_pos: 0,
                fork_counter: 0,
            }),
    {
        proof {
            use_type_invariant(&*self);
        }
        let seed = context_seed(self.seed, context);
        GameRng { inner: chacha_from_seed(seed), seed, fork_counter: 0 }
    }

    /// Draws a number of the range. The number and the state after the
    /// draw are settled by the state before it and the range: generators
    /// in the same state draw the same.
    pub fn gen_range(&mut self, range: std::ops::Range<i32>) -> (drawn: i32)
        requires
            range.start < range.end,
        ensures
            range.start <= drawn < range.end,
            final(self)@.seed == old(self)@.seed,
            final(self)@.fork_counter == old(self)@.fork_counter,
            drawn == ranged(
                old(self)@.seed,
                old(self)@.word_pos,
                range.start,
                range.end,
            ).0 && final(self)@.word_pos == ranged(
                old(self)@.seed,
                old(self)@.word_pos,
                range.start,
                range.end,
            ).1,
    {
        proof {
            use_type_invariant(&*self);
        }
        chacha_range_i32(&mut self.inner, range.start, range.end)
    }

    /// Draws an index of the range. The index and the state after the
    /// draw are settled by the state before it, the range and the width
    /// of `usize`.
    pub fn gen_range_usize(&mut self, range: std::ops::Range<usize>) -> (drawn: usize)
        requires
            range.start < range.end,
        ensures
            range.start <= drawn < range.end,
            final(self)@.seed == old(self)@.seed,
            final(self)@.fork_counter == old(self)@.fork_counter,
            drawn == indexed(
                old(self)@.seed,
                old(self)@.word_pos,
                range.start,
                range.end,
                usize::BITS,
            ).0 && final(self)@.word_pos == indexed(
                old(self)@.seed,
                old(self)@.word_pos,
                range.start,
                range.end,
                usize::BITS,
            ).1,
    {
        proof {
            use_type_invariant(&*self);
        }
        chacha_range_usize(&mut self.inner, range.start, range.end)
    }

    /// Puts the items in a drawn order: the same items, each as often as
    /// before. The order and the state after the shuffle are settled by
    /// the state before it and the number of items.
    pub fn shuffle<T>(&mut self, items: &mut Vec<T>)
        ensures
            final(items)@.to_multiset() == old(items)@.to_multiset(),
            final(self)@.seed == old(self)@.seed,
            final(self)@.fork_counter == old(self)@.fork_counter,
            arranged(
                old(items)@,
                final(items)@,
                shuffled(old(self)@.seed, old(self)@.word_pos, old(items)@.len()).0,
            ) && final(self)@.word_pos == shuffled(
                old(self)@.seed,
                old(self)@.word_pos,
                old(items)@.len(),
            ).1,
    {
        proof {
            use_type_invariant(&*self);
        }
        chacha_shuffle(&mut self.inner, items);
    }

    /// Draws one of the items; nothing where there is none. The place of
    /// the item and the state after the draw are settled by the state
    /// before it and the number of items.
    pub fn choose_one<'a, T>(&mut self, items: &'a [T]) -> (chosen: Option<&'a T>)
        ensures
            chosen is None <==> items@.len() == 0,
            chosen matches Some(item) ==> items@.contains(*item),
            final(self)@.seed == old(self)@.seed,
            final(self)@.fork_counter == old(self)@.fork_counter,
            chosen matches Some(item) ==> ({
                let place = picked(old(self)@.seed, old(self)@.word_pos, items@.len());
                0 <= place.0 < items@.len() && *item == items@[place.0] && final(self)@.word_pos
                    == place.1
            }),
            chosen is None ==> final(self)@ == old(self)@,
    {
        proof {
            use_type_invariant(&*self);
        }
        chacha_choose(&mut self.inner, items)
    }

    /// The state, to store.
    pub fn state(&self) -> (state: GameRngState)
        ensures
            state == self@,
            state.word_pos < stream_words(),
    {
        proof {
            use_type_invariant(&*self);
        }
        GameRngState {
            seed: self.seed,
            word_pos: chacha_word_pos(&self.inner),
            fork_counter: self.fork_counter,
        }
    }

    /// The generator that a stored state describes.
    pub fn from_state(state: &GameRngState) -> (rng: Self)
        ensures
            rng@ == restored(*state),
    {
        let mut inner = chacha_from_seed(state.seed);
        chacha_set_word_pos(&mut inner, state.word_pos);
        GameRng { inner, seed: state.seed, fork_counter: state.fork_counter }
    }

    /// The seed of the stream.
    pub fn seed(&self) -> (seed: u64)
        ensures
            seed == self@.seed,
    {
        self.seed
    }

    /// How many forks have been taken.
    pub fn fork_counter(&self) -> (count: u64)
        ensures
            count == self@.fork_counter,
    {
        self.fork_counter
    }

    /// Draws the next 32 bits of the stream.
    pub fn next_word(&mut self) -> (word: u32)
        ensures
            word == word_at(old(self)@.seed, old(self)@.word_pos),
            final(self)@ == (GameRngState {
                word_pos: ((old(self)@.word_pos + 1) % (stream_words() as int)) as u128,
                ..old(self)@
            }),
    {
        proof {
            use_type_invariant(&*self);
        }
        chacha_next_u32(&mut self.inner)
    }

    /// Draws the next 64 bits of the stream.
    pub fn next_words(&mut self) -> (words: u64)
        ensures
            words == words_at(old(self)@.seed, old(self)@.word_pos),
            final(self)@ == (GameRngState {
                word_pos: ((old(self)@.word_pos + 2) % (stream_words() as int)) as u128,
                ..old(self)@
            }),
    {
        proof {
            use_type_invariant(&*self);
        }
        chacha_next_u64(&mut self.inner)
    }
}

impl Clone for GameRng {
    fn clone(&self) -> (copy: Self)
        ensures
            copy@ == self@,
    {
        proof {
            use_type_invariant(self);
        }
        GameRng {
            inner: chacha_clone(&self.inner),
            seed: self.seed,
            fork_counter: self.fork_counter,
        }
    }
}

/// Storing a generator's state and restoring it gives a generator in the
/// same state.
pub proof fn lemma_state_round_trip(state: GameRngState)
    requires
        state.word_pos < stream_words(),
    ensures
        restored(state) == state,
{
}

/// The k-th fork of a generator has the same seed whenever it is taken:
/// the seed depends on the parent's seed and on k alone, and no two of the
/// first 2^64 forks of one parent share a seed.
pub proof fn lemma_fork_seed_injective(seed: u64, first: u64, second: u64)
    requires
        first != second,
    ensures
        fork_seed(seed, first) != fork_seed(seed, second),
{
    assert(first.wrapping_mul(0x9E37_79B9_7F4A_7C15u64) != second.wrapping_mul(
        0x9E37_79B9_7F4A_7C15u64,
    )) by (bit_vector)
        requires
            first != second,
    ;
    let a = first.wrapping_mul(fork_stride());
    let b = second.wrapping_mul(fork_stride());
    assert(seed.wrapping_add(a) != seed.wrapping_add(b)) by (bit_vector)
        requires
            a != b,
    ;
}

} // verus!
