//! The calls into other crates, each with what is relied upon of it.

use crate::size_text::size_is_countable;
use rand::seq::SliceRandom;
use rand::SeedableRng;
use std::sync::Arc;
use vstd::prelude::*;

verus! {

/// Host-side tensor data of `burn`: bytes with a shape and an element type,
/// and the bytes may be shared. Two values are equal here when they agree in
/// these four.
#[verifier::external_type_specification]
#[verifier::external_body]
pub struct ExTensorData(burn::tensor::TensorData);

/// The element type of tensor data of `burn`.
#[verifier::external_type_specification]
#[verifier::external_body]
pub struct ExDType(burn::tensor::DType);

/// The bytes that a `TensorData` holds.
pub uninterp spec fn data_bytes(data: burn::tensor::TensorData) -> Seq<u8>;

/// The shape that a `TensorData` gives its bytes.
pub uninterp spec fn data_shape(data: burn::tensor::TensorData) -> Seq<usize>;

/// The element type that a `TensorData` gives its bytes.
pub uninterp spec fn data_type(data: burn::tensor::TensorData) -> burn::tensor::DType;

/// Whether the bytes of a `TensorData` were put behind a reference count by
/// `Bytes::shared` and have not been written to since, so that a clone is
/// another view of them and copies none.
pub uninterp spec fn data_is_shared(data: burn::tensor::TensorData) -> bool;

/// `TensorData::bytes`, and of it `Bytes::len`: the number of bytes held.
#[verifier::external_body]
pub(crate) fn data_len(data: &burn::tensor::TensorData) -> (n: usize)
    ensures
        n == data_bytes(*data).len(),
{
    data.bytes().len()
}

/// `TensorData::clone`: the same bytes, shape and element type. The bytes are
/// shared with the clone where they were shared before, and copied where they
/// were not.
#[verifier::external_body]
pub(crate) fn clone_data(data: &burn::tensor::TensorData) -> (copy: burn::tensor::TensorData)
    ensures
        copy == *data,
{
    data.clone()
}

/// `Bytes::shared`, between `TensorData::into_parts` and
/// `TensorData::from_bytes`: the bytes move behind a reference count, and
/// bytes, shape and element type stay as they were. `from_bytes` holds the
/// number of bytes against the shape, which the parts of one value pass.
#[verifier::external_body]
pub(crate) fn share_data(data: burn::tensor::TensorData) -> (shared: burn::tensor::TensorData)
    ensures
        data_bytes(shared) == data_bytes(data),
        data_shape(shared) == data_shape(data),
        data_type(shared) == data_type(data),
        data_is_shared(shared),
{
    let (bytes, shape, dtype) = data.into_parts();
    burn::tensor::TensorData::from_bytes(bytes.shared(), shape, dtype)
}

/// `Arc::clone`: another pointer to the same value.
#[verifier::external_body]
pub(crate) fn clone_arc<T>(pointer: &Arc<T>) -> (copy: Arc<T>)
    ensures
        copy == *pointer,
{
    pointer.clone()
}

/// The random generator of `rand`: a ChaCha stream, of which only the words
/// that it has yet to hand out matter.
#[verifier::external_type_specification]
#[verifier::external_body]
pub struct ExStdRng(rand::rngs::StdRng);

/// The words that a generator has yet to hand out, in their order.
pub uninterp spec fn upcoming_words(rng: rand::rngs::StdRng) -> Map<nat, u32>;

/// The words of the generator that `SeedableRng::seed_from_u64` makes.
pub uninterp spec fn seeded_words(seed: u64) -> Map<nat, u32>;

/// What `SliceRandom::shuffle` makes of an order with the given words ahead,
/// and the words that are ahead after it.
pub uninterp spec fn shuffle_draw(order: Seq<usize>, words: Map<nat, u32>) -> (Seq<usize>, Map<nat, u32>);

/// `SeedableRng::seed_from_u64` for `StdRng`: the words depend on the seed
/// alone.
#[verifier::external_body]
pub(crate) fn seed_rng(seed: u64) -> (rng: rand::rngs::StdRng)
    ensures
        upcoming_words(rng) == seeded_words(seed),
{
    rand::rngs::StdRng::seed_from_u64(seed)
}

/// `SliceRandom::shuffle`: which permutation comes out, and how many words it
/// takes, depend on the order and on the words ahead alone. Whatever they
/// are, what comes out is a permutation.
#[verifier::external_body]
pub(crate) fn shuffle(order: &mut Vec<usize>, rng: &mut rand::rngs::StdRng)
    ensures
        final(order)@ == shuffle_draw(old(order)@, upcoming_words(*old(rng))).0,
        upcoming_words(*final(rng)) == shuffle_draw(old(order)@, upcoming_words(*old(rng))).1,
        final(order)@.to_multiset() == old(order)@.to_multiset(),
{
    order.shuffle(rng);
}

/// What `parse_size::parse_size` reads a text as, in bytes; nothing where it
/// returns an error.
pub uninterp spec fn parsed_size(text: Seq<char>) -> Option<u64>;

/// `parse_size::parse_size`: a number with an optional unit, read as a number
/// of bytes. Which texts it reads, and as what, depends on the text alone.
/// Its counters overflow on a mantissa that rounds past 64 bits and on digits
/// beyond count: such texts are left out.
#[verifier::external_body]
pub(crate) fn parse_size(text: &str) -> (bytes: Option<u64>)
    requires
        size_is_countable(text@),
    ensures
        bytes == parsed_size(text@),
{
    parse_size::parse_size(text).ok()
}

/// `ParamId::new`: an identity drawn at random, of which nothing more can be
/// said.
#[verifier::external_body]
pub(crate) fn fresh_param_id() -> (id: u64) {
    burn::module::ParamId::new().val()
}

} // verus!
