//! Generation of LWE key-switching keys.
use crate::decomposition::term::DecompositionTerm;
use crate::entities::lwe_ciphertext::LweCiphertextView;
use crate::entities::lwe_ciphertext_list::{
    lemma_slot_bounds,
    lemma_slots_disjoint,
    LweCiphertextList,
};
use crate::entities::lwe_keyswitch_key::LweKeyswitchKey;
use crate::entities::lwe_secret_key::LweSecretKey;
use crate::entities::plaintext_list::{Plaintext, PlaintextList};
use crate::lwe_encryption::{
    encrypt_lwe_ciphertext_list,
    lemma_phase_of_encryption,
    list_encryption_of,
    lwe_phase,
};
use crate::numeric::UnsignedInteger;
use crate::parameters::{
    DecompositionBaseLog,
    DecompositionLevel,
    DecompositionLevelCount,
    LweCiphertextCount,
    PlaintextCount,
    StandardDev,
};
use crate::random::{EncryptionRandomGenerator, RandomGenerator};
use vstd::arithmetic::mul::*;
use vstd::arithmetic::power2::*;
use vstd::prelude::*;

verus! {

/// What a term of value `value` at level `level` in base `2^base_log`
/// contributes to a recomposed word of `width` bits: the value times the
/// weight `2^(width - base_log * level)` of the level, modulo `2^width`.
pub open spec fn recomposition_summand(value: nat, base_log: nat, level: nat, width: nat) -> nat {
    (value * pow2((width - base_log * level) as nat)) % pow2(width)
}

/// The plaintexts that the block of one scalar of the input key encrypts:
/// for each level, level one first, the recomposition summand of the scalar
/// at that level.
pub open spec fn key_element_plaintexts(
    element: nat,
    base_log: nat,
    level_count: nat,
    width: nat,
) -> Seq<nat> {
    Seq::new(level_count, |j: int| recomposition_summand(element, base_log, (j + 1) as nat, width))
}

/// The block of the scalar at `index` of the input key in the key-switching
/// key generated with the scalars `masks` and `noises`: the encryptions
/// under the output key of the plaintexts of that scalar, with the part of
/// the randomness that falls to the block, as each block takes as much.
pub open spec fn keyswitch_block_of(
    input_key: Seq<nat>,
    output_key: Seq<nat>,
    base_log: nat,
    level_count: nat,
    masks: Seq<nat>,
    noises: Seq<nat>,
    width: nat,
    index: int,
) -> Seq<LweCiphertextView> {
    let per_block = level_count * output_key.len();
    list_encryption_of(
        output_key,
        key_element_plaintexts(input_key[index], base_log, level_count, width),
        masks.subrange(index * per_block, index * per_block + per_block),
        noises.subrange(index * level_count, index * level_count + level_count),
        width,
    )
}

/// In the block of a scalar of the input key, the ciphertext of each level
/// has a mask of the dimension of the output key, and decrypts under the
/// output key to the recomposition summand of the scalar at that level, with
/// the noise of its encryption on it.
pub proof fn lemma_keyswitch_block_decrypts(
    input_key: Seq<nat>,
    output_key: Seq<nat>,
    base_log: nat,
    level_count: nat,
    masks: Seq<nat>,
    noises: Seq<nat>,
    width: nat,
    index: int,
    level: nat,
)
    requires
        0 <= index < input_key.len(),
        1 <= level <= level_count,
        masks.len() == input_key.len() * (level_count * output_key.len()),
        noises.len() == input_key.len() * level_count,
    ensures
        ({
            let block = keyswitch_block_of(
                input_key,
                output_key,
                base_log,
                level_count,
                masks,
                noises,
                width,
                index,
            );
            &&& block.len() == level_count
            &&& block[level - 1].mask.len() == output_key.len()
            &&& 0 <= index * level_count + level - 1 < noises.len()
            &&& lwe_phase(block[level - 1], output_key, width) == (recomposition_summand(
                input_key[index],
                base_log,
                level,
                width,
            ) + noises[index * level_count + level - 1]) % pow2(width)
        }),
{
    let per_block = (level_count * output_key.len()) as int;
    let dimension = output_key.len() as int;
    let block_masks = masks.subrange(index * per_block, index * per_block + per_block);
    lemma_mul_nonnegative(level_count as int, dimension);
    lemma_slot_bounds(index, input_key.len() as int, per_block);
    lemma_slot_bounds(index, input_key.len() as int, level_count as int);
    lemma_slot_bounds(level - 1, level_count as int, dimension);
    lemma_phase_of_encryption(
        output_key,
        recomposition_summand(input_key[index], base_log, level, width),
        block_masks.subrange((level - 1) * dimension, (level - 1) * dimension + dimension),
        noises[index * level_count + level - 1],
        width,
    );
}

/// The blocks of the key-switching key generated with the scalars `masks`
/// and `noises`, one for each scalar of the input key, in the order of the
/// input key.
pub open spec fn keyswitch_blocks_of(
    input_key: Seq<nat>,
    output_key: Seq<nat>,
    base_log: nat,
    level_count: nat,
    masks: Seq<nat>,
    noises: Seq<nat>,
    width: nat,
) -> Seq<Seq<LweCiphertextView>> {
    Seq::new(
        input_key.len(),
        |i: int|
            keyswitch_block_of(
                input_key,
                output_key,
                base_log,
                level_count,
                masks,
                noises,
                width,
                i,
            ),
    )
}

/// A key-switching key has exactly one block for each scalar of the input
/// key, each block has exactly one ciphertext for each level, and each
/// ciphertext has a mask of the dimension of the output key, whatever the
/// dimensions and the number of levels are.
pub proof fn lemma_keyswitch_key_shape(
    input_key: Seq<nat>,
    output_key: Seq<nat>,
    base_log: nat,
    level_count: nat,
    masks: Seq<nat>,
    noises: Seq<nat>,
    width: nat,
)
    requires
        masks.len() == input_key.len() * (level_count * output_key.len()),
        noises.len() == input_key.len() * level_count,
    ensures
        ({
            let blocks = keyswitch_blocks_of(
                input_key,
                output_key,
                base_log,
                level_count,
                masks,
                noises,
                width,
            );
            &&& blocks.len() == input_key.len()
            &&& forall|i: int| 0 <= i < blocks.len() ==> (#[trigger] blocks[i]).len() == level_count
            &&& forall|i: int, k: int|
                0 <= i < blocks.len() && 0 <= k < level_count ==> (#[trigger] blocks[i][k]).mask.len()
                    == output_key.len()
        }),
{
    let blocks = keyswitch_blocks_of(
        input_key,
        output_key,
        base_log,
        level_count,
        masks,
        noises,
        width,
    );
    assert forall|i: int, k: int| 0 <= i < blocks.len() && 0 <= k < level_count implies (
    #[trigger] blocks[i][k]).mask.len() == output_key.len() by {
        lemma_keyswitch_block_decrypts(
            input_key,
            output_key,
            base_log,
            level_count,
            masks,
            noises,
            width,
            i,
            (k + 1) as nat,
        );
    }
}

/// Fills `lwe_keyswitch_key` with the key-switching key from `input_lwe_sk`
/// to `output_lwe_sk`.
///
/// For each scalar of the input key, in order, the block of that scalar
/// receives the encryptions under the output key of the recomposition
/// summands of the scalar at each level of the decomposition of the
/// destination key, each with fresh randomness and a noise asked for with
/// `noise_parameters`.
///
/// The dimensions that the destination key declares must be those of the
/// two secret keys: a caller that cannot tell compares them first.
pub fn generate_binary_binary_lwe_keyswitch_key<
    Scalar: UnsignedInteger,
    Gen: RandomGenerator<Scalar>,
>(
    input_lwe_sk: &LweSecretKey<Scalar>,
    output_lwe_sk: &LweSecretKey<Scalar>,
    lwe_keyswitch_key: &mut LweKeyswitchKey<Scalar>,
    noise_parameters: StandardDev,
    generator: &mut EncryptionRandomGenerator<Gen>,
)
    requires
        old(lwe_keyswitch_key).wf(),
        old(lwe_keyswitch_key).spec_input_dimension() == input_lwe_sk@.len(),
        old(lwe_keyswitch_key).spec_output_dimension() == output_lwe_sk@.len(),
    ensures
        final(lwe_keyswitch_key).wf(),
        final(lwe_keyswitch_key).spec_base_log() == old(lwe_keyswitch_key).spec_base_log(),
        final(lwe_keyswitch_key).spec_level_count() == old(lwe_keyswitch_key).spec_level_count(),
        final(lwe_keyswitch_key).spec_input_dimension() == input_lwe_sk@.len(),
        final(lwe_keyswitch_key).spec_output_dimension() == output_lwe_sk@.len(),
        ({
            let masks = final(generator).mask_draws().skip(
                old(generator).mask_draws().len() as int,
            );
            let noises = final(generator).noise_draws().skip(
                old(generator).noise_draws().len() as int,
            );
            let level_count = old(lwe_keyswitch_key).spec_level_count();
            let key = *final(lwe_keyswitch_key);
            &&& key.ciphertexts().len() == input_lwe_sk@.len() * level_count
            &&& key.buffer().len() == input_lwe_sk@.len() * level_count * (output_lwe_sk@.len()
                + 1)
            &&& forall|i: int|
                0 <= i < input_lwe_sk@.len() ==> (#[trigger] key.block(i)).len() == level_count
            &&& forall|c: int|
                0 <= c < key.ciphertexts().len() ==> (#[trigger] key.ciphertexts()[c]).mask.len()
                    == output_lwe_sk@.len()
            &&& final(generator).mask_draws() == old(generator).mask_draws() + masks
            &&& final(generator).noise_draws() == old(generator).noise_draws() + noises
            &&& final(generator).noise_requests() == old(generator).noise_requests() + Seq::new(
                input_lwe_sk@.len() * level_count,
                |i: int| noise_parameters,
            )
            &&& masks.len() == input_lwe_sk@.len() * (level_count * output_lwe_sk@.len())
            &&& noises.len() == input_lwe_sk@.len() * level_count
            &&& forall|i: int|
                0 <= i < input_lwe_sk@.len() ==> #[trigger] key.block(i) == keyswitch_block_of(
                    input_lwe_sk@,
                    output_lwe_sk@,
                    old(lwe_keyswitch_key).spec_base_log(),
                    level_count,
                    masks,
                    noises,
                    Scalar::spec_bits(),
                    i,
                )
        }),
{
    let decomp_base_log = lwe_keyswitch_key.decomposition_base_log();
    let decomp_level_count = lwe_keyswitch_key.decomposition_levels_count();
    let input_dimension = input_lwe_sk.lwe_dimension().0;

    let ghost masks_before = generator.mask_draws();
    let ghost noises_before = generator.noise_draws();
    let ghost requests_before = generator.noise_requests();
    let ghost masks: Seq<nat> = Seq::empty();
    let ghost noises: Seq<nat> = Seq::empty();
    let ghost input_key = input_lwe_sk@;
    let ghost output_key = output_lwe_sk@;
    let ghost base_log = decomp_base_log.0 as nat;
    let ghost level_count = decomp_level_count.0 as nat;
    let ghost per_block = (level_count * output_key.len()) as int;
    let ghost width = Scalar::spec_bits();
    proof {
        lwe_keyswitch_key.lemma_shape();
        lemma_mul_nonnegative(level_count as int, output_key.len() as int);
        assert(masks_before + masks =~= masks_before);
        assert(noises_before + noises =~= noises_before);
        assert(generator.mask_draws().skip(masks_before.len() as int) =~= masks);
        assert(generator.noise_draws().skip(noises_before.len() as int) =~= noises);
        lemma_mul_basics(level_count as int);
        assert(requests_before + Seq::new(0, |i: int| noise_parameters) =~= requests_before);
    }
    if input_dimension == 0 {
        proof {
            lemma_mul_basics(per_block);
        }
        return ;
    }
    let total = lwe_keyswitch_key.as_ref().len();
    proof {
        // One block is no larger than all of them.
        let block_size = level_count * (output_key.len() + 1);
        lemma_mul_is_associative(
            input_key.len() as int,
            level_count as int,
            (output_key.len() + 1) as int,
        );
        lemma_mul_nonnegative(level_count as int, (output_key.len() + 1) as int);
        lemma_mul_inequality(1, input_key.len() as int, block_size as int);
    }

    // The plaintexts used to encrypt a key element will be stored in this buffer
    let mut decomposition_plaintexts_buffer = PlaintextList::new(
        Scalar::zero(),
        PlaintextCount(decomp_level_count.0),
    );
    // One ciphertext per level encrypted under the output key
    let mut keyswitch_key_block = LweCiphertextList::new(
        Scalar::zero(),
        lwe_keyswitch_key.output_lwe_size(),
        LweCiphertextCount(decomp_level_count.0),
    );

    let mut index: usize = 0;
    while index < input_dimension
        invariant
            index <= input_dimension,
            input_dimension == input_key.len(),
            input_key == input_lwe_sk@,
            output_key == output_lwe_sk@,
            base_log == decomp_base_log.0,
            level_count == decomp_level_count.0,
            per_block == level_count * output_key.len(),
            width == Scalar::spec_bits(),
            base_log >= 1,
            base_log * level_count <= width,
            lwe_keyswitch_key.wf(),
            lwe_keyswitch_key.spec_base_log() == base_log,
            lwe_keyswitch_key.spec_level_count() == level_count,
            lwe_keyswitch_key.spec_input_dimension() == input_key.len(),
            lwe_keyswitch_key.spec_output_dimension() == output_key.len(),
            decomposition_plaintexts_buffer@.len() == level_count,
            keyswitch_key_block.wf(),
            keyswitch_key_block@.len() == level_count,
            keyswitch_key_block.spec_lwe_size() == output_key.len() + 1,
            generator.mask_draws() == masks_before + masks,
            generator.noise_draws() == noises_before + noises,
            generator.noise_requests() == requests_before + Seq::new(
                (index * level_count) as nat,
                |i: int| noise_parameters,
            ),
            masks.len() == index * per_block,
            noises.len() == index * level_count,
            forall|i: int|
                0 <= i < index ==> #[trigger] lwe_keyswitch_key.block(i) == keyswitch_block_of(
                    input_key,
                    output_key,
                    base_log,
                    level_count,
                    masks,
                    noises,
                    width,
                    i,
                ),
        decreases input_dimension - index,
    {
        let input_key_element = input_lwe_sk.as_ref()[index];
        assert(input_key_element.as_nat() == input_key[index as int]);

        // We fill the buffer with the recomposition summands of the key element
        let mut position: usize = 0;
        while position < decomp_level_count.0
            invariant
                position <= decomp_level_count.0,
                base_log == decomp_base_log.0,
                level_count == decomp_level_count.0,
                width == Scalar::spec_bits(),
                base_log * level_count <= width,
                decomposition_plaintexts_buffer@.len() == level_count,
                forall|j: int|
                    0 <= j < position ==> #[trigger] decomposition_plaintexts_buffer@[j]
                        == recomposition_summand(
                        input_key_element.as_nat(),
                        base_log,
                        (j + 1) as nat,
                        width,
                    ),
            decreases decomp_level_count.0 - position,
        {
            proof {
                lemma_mul_inequality(position + 1, level_count as int, base_log as int);
                lemma_mul_is_commutative(position + 1, base_log as int);
                lemma_mul_is_commutative(level_count as int, base_log as int);
            }
            let term = DecompositionTerm::new(
                DecompositionLevel(position + 1),
                decomp_base_log,
                input_key_element,
            );
            decomposition_plaintexts_buffer.set(
                position,
                Plaintext(term.to_recomposition_summand()),
            );
            position += 1;
        }
        let ghost plaintexts = key_element_plaintexts(
            input_key[index as int],
            base_log,
            level_count,
            width,
        );
        assert(decomposition_plaintexts_buffer@ =~= plaintexts);

        let ghost masks_so_far = masks;
        let ghost noises_so_far = noises;
        let ghost key_so_far = *lwe_keyswitch_key;
        encrypt_lwe_ciphertext_list(
            output_lwe_sk,
            &mut keyswitch_key_block,
            &decomposition_plaintexts_buffer,
            noise_parameters,
            generator,
        );
        lwe_keyswitch_key.set_block(index, &keyswitch_key_block);

        proof {
            let drawn_masks = generator.mask_draws().skip(
                (masks_before + masks_so_far).len() as int,
            );
            let drawn_noises = generator.noise_draws().skip(
                (noises_before + noises_so_far).len() as int,
            );
            masks = masks_so_far + drawn_masks;
            noises = noises_so_far + drawn_noises;
            assert(generator.mask_draws() =~= masks_before + masks);
            assert(generator.noise_draws() =~= noises_before + noises);
            lemma_mul_is_distributive_add_other_way(per_block, index as int, 1);
            lemma_mul_is_distributive_add_other_way(level_count as int, index as int, 1);
            lemma_mul_nonnegative(index as int, level_count as int);
            assert(generator.noise_requests() =~= requests_before + Seq::new(
                ((index + 1) * level_count) as nat,
                |i: int| noise_parameters,
            ));
            assert forall|i: int| 0 <= i < index + 1 implies #[trigger] lwe_keyswitch_key.block(i)
                == keyswitch_block_of(
                input_key,
                output_key,
                base_log,
                level_count,
                masks,
                noises,
                width,
                i,
            ) by {
                lemma_slot_bounds(i, index + 1, per_block);
                lemma_slot_bounds(i, index + 1, level_count as int);
                if i < index {
                    lemma_slots_disjoint(i, index as int, per_block);
                    lemma_slots_disjoint(i, index as int, level_count as int);
                    assert(lwe_keyswitch_key.block(i) == key_so_far.block(i));
                    assert(masks.subrange(i * per_block, i * per_block + per_block)
                        =~= masks_so_far.subrange(i * per_block, i * per_block + per_block));
                    assert(noises.subrange(i * level_count, i * level_count + level_count)
                        =~= noises_so_far.subrange(i * level_count, i * level_count + level_count));
                } else {
                    assert(masks.subrange(i * per_block, i * per_block + per_block)
                        =~= drawn_masks);
                    assert(noises.subrange(i * level_count, i * level_count + level_count)
                        =~= drawn_noises);
                }
            }
        }
        index += 1;
    }
    proof {
        assert(generator.mask_draws().skip(masks_before.len() as int) =~= masks);
        assert(generator.noise_draws().skip(noises_before.len() as int) =~= noises);
        lwe_keyswitch_key.lemma_shape();
    }
}

/// Makes the key-switching key from `input_lwe_sk` to `output_lwe_sk` with
/// the given decomposition: a key of the dimensions of the two secret keys,
/// filled as `generate_binary_binary_lwe_keyswitch_key` fills it.
pub fn allocate_and_generate_new_binary_binary_lwe_keyswitch_key<
    Scalar: UnsignedInteger,
    Gen: RandomGenerator<Scalar>,
>(
    input_lwe_sk: &LweSecretKey<Scalar>,
    output_lwe_sk: &LweSecretKey<Scalar>,
    decomp_base_log: DecompositionBaseLog,
    decomp_level_count: DecompositionLevelCount,
    noise_parameters: StandardDev,
    generator: &mut EncryptionRandomGenerator<Gen>,
) -> (new_lwe_keyswitch_key: LweKeyswitchKey<Scalar>)
    requires
        decomp_base_log.0 >= 1,
        decomp_base_log.0 * decomp_level_count.0 <= Scalar::spec_bits(),
        output_lwe_sk@.len() < usize::MAX,
        input_lwe_sk@.len() * decomp_level_count.0 * (output_lwe_sk@.len() + 1) <= usize::MAX,
    ensures
        new_lwe_keyswitch_key.wf(),
        new_lwe_keyswitch_key.spec_base_log() == decomp_base_log.0,
        new_lwe_keyswitch_key.spec_level_count() == decomp_level_count.0,
        new_lwe_keyswitch_key.spec_input_dimension() == input_lwe_sk@.len(),
        new_lwe_keyswitch_key.spec_output_dimension() == output_lwe_sk@.len(),
        ({
            let masks = final(generator).mask_draws().skip(
                old(generator).mask_draws().len() as int,
            );
            let noises = final(generator).noise_draws().skip(
                old(generator).noise_draws().len() as int,
            );
            &&& new_lwe_keyswitch_key.ciphertexts().len() == input_lwe_sk@.len()
                * decomp_level_count.0
            &&& new_lwe_keyswitch_key.buffer().len() == input_lwe_sk@.len() * decomp_level_count.0
                * (output_lwe_sk@.len() + 1)
            &&& forall|i: int|
                0 <= i < input_lwe_sk@.len() ==> (#[trigger] new_lwe_keyswitch_key.block(i)).len()
                    == decomp_level_count.0
            &&& forall|c: int|
                0 <= c < new_lwe_keyswitch_key.ciphertexts().len()
                    ==> (#[trigger] new_lwe_keyswitch_key.ciphertexts()[c]).mask.len()
                    == output_lwe_sk@.len()
            &&& final(generator).mask_draws() == old(generator).mask_draws() + masks
            &&& final(generator).noise_draws() == old(generator).noise_draws() + noises
            &&& final(generator).noise_requests() == old(generator).noise_requests() + Seq::new(
                (input_lwe_sk@.len() * decomp_level_count.0) as nat,
                |i: int| noise_parameters,
            )
            &&& masks.len() == input_lwe_sk@.len() * (decomp_level_count.0 * output_lwe_sk@.len())
            &&& noises.len() == input_lwe_sk@.len() * decomp_level_count.0
            &&& forall|i: int|
                0 <= i < input_lwe_sk@.len() ==> #[trigger] new_lwe_keyswitch_key.block(i)
                    == keyswitch_block_of(
                    input_lwe_sk@,
                    output_lwe_sk@,
                    decomp_base_log.0 as nat,
                    decomp_level_count.0 as nat,
                    masks,
                    noises,
                    Scalar::spec_bits(),
                    i,
                )
        }),
{
    let mut new_lwe_keyswitch_key = LweKeyswitchKey::new(
        Scalar::zero(),
        decomp_base_log,
        decomp_level_count,
        input_lwe_sk.lwe_dimension(),
        output_lwe_sk.lwe_dimension(),
    );
    generate_binary_binary_lwe_keyswitch_key(
        input_lwe_sk,
        output_lwe_sk,
        &mut new_lwe_keyswitch_key,
        noise_parameters,
        generator,
    );
    new_lwe_keyswitch_key
}

} // verus!
