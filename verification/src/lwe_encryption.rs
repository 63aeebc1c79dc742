//! Encryption and decryption of LWE ciphertexts.
use crate::entities::lwe_ciphertext::{LweCiphertext, LweCiphertextView};
use crate::entities::lwe_ciphertext_list::{
    lemma_slot_bounds,
    lemma_slots_disjoint,
    LweCiphertextList,
};
use crate::entities::lwe_secret_key::{scalars_as_nat, LweSecretKey};
use crate::entities::plaintext_list::{Plaintext, PlaintextList};
use crate::entities::seeded_lwe_ciphertext::SeededLweCiphertext;
use crate::numeric::UnsignedInteger;
use crate::parameters::StandardDev;
use crate::random::{EncryptionRandomGenerator, RandomGenerator, SeedableGenerator, Seeder};
use vstd::arithmetic::div_mod::*;
use vstd::arithmetic::power2::*;
use vstd::prelude::*;

verus! {

/// The sum of the products of the scalars of `mask` with the scalars of
/// `key` at the same positions.
pub open spec fn dot_product(mask: Seq<nat>, key: Seq<nat>) -> nat
    decreases mask.len(),
{
    if mask.len() == 0 {
        0
    } else {
        dot_product(mask.drop_last(), key) + mask.last() * key[mask.len() - 1]
    }
}

/// The body of the encryption of `plaintext` under `key` with the given
/// mask and noise, over words of `width` bits: the dot product of the mask
/// with the key, plus the noise, plus the plaintext, modulo `2^width`.
pub open spec fn lwe_body(mask: Seq<nat>, key: Seq<nat>, noise: nat, plaintext: nat, width: nat) -> nat {
    (dot_product(mask, key) + noise + plaintext) % pow2(width)
}

/// The encryption of `plaintext` under `key` with the given mask and noise.
pub open spec fn encryption_of(
    key: Seq<nat>,
    plaintext: nat,
    mask: Seq<nat>,
    noise: nat,
    width: nat,
) -> LweCiphertextView {
    LweCiphertextView { mask, body: lwe_body(mask, key, noise, plaintext, width) }
}

/// What decryption under `key` finds in a ciphertext: its body less the dot
/// product of its mask with the key, modulo `2^width`. For an encryption it
/// is the plaintext plus the noise.
pub open spec fn lwe_phase(ciphertext: LweCiphertextView, key: Seq<nat>, width: nat) -> nat {
    ((ciphertext.body - dot_product(ciphertext.mask, key)) % (pow2(width) as int)) as nat
}

/// Decrypting an encryption gives the plaintext plus the noise, modulo the
/// range of the word.
pub proof fn lemma_phase_of_encryption(
    key: Seq<nat>,
    plaintext: nat,
    mask: Seq<nat>,
    noise: nat,
    width: nat,
)
    ensures
        lwe_phase(encryption_of(key, plaintext, mask, noise, width), key, width) == (plaintext
            + noise) % pow2(width),
{
    let range = pow2(width) as int;
    let dot = dot_product(mask, key) as int;
    lemma_pow2_pos(width);
    lemma_sub_mod_noop(dot + noise + plaintext, dot, range);
    lemma_sub_mod_noop_right((dot + noise + plaintext) % range, dot, range);
}

/// The dot product of two sequences of scalars, modulo the range of the
/// word.
pub fn slice_wrapping_dot_product<T: UnsignedInteger>(lhs: &Vec<T>, rhs: &Vec<T>) -> (product: T)
    requires
        lhs@.len() == rhs@.len(),
    ensures
        product.as_nat() == dot_product(scalars_as_nat(lhs@), scalars_as_nat(rhs@)) % pow2(
            T::spec_bits(),
        ),
{
    let ghost left = scalars_as_nat(lhs@);
    let ghost right = scalars_as_nat(rhs@);
    let ghost range = pow2(T::spec_bits()) as int;
    let mut acc = T::zero();
    let mut i: usize = 0;
    proof {
        lemma_pow2_pos(T::spec_bits());
        lemma_small_mod(0, range as nat);
        assert(left.take(0).len() == 0);
    }
    while i < lhs.len()
        invariant
            i <= lhs@.len(),
            lhs@.len() == rhs@.len(),
            left == scalars_as_nat(lhs@),
            right == scalars_as_nat(rhs@),
            range == pow2(T::spec_bits()),
            range > 0,
            acc.as_nat() == dot_product(left.take(i as int), right) % (range as nat),
        decreases lhs@.len() - i,
    {
        let term = lhs[i].wrapping_mul(rhs[i]);
        proof {
            let before = left.take(i as int);
            let after = left.take(i + 1);
            assert(after.drop_last() =~= before);
            assert(after.last() == left[i as int]);
            lemma_add_mod_noop(
                dot_product(before, right) as int,
                (left[i as int] * right[i as int]) as int,
                range,
            );
        }
        acc = acc.wrapping_add(term);
        i += 1;
    }
    proof {
        assert(left.take(i as int) =~= left);
    }
    acc
}

/// Encrypts `encoded` under `lwe_secret_key` into `output`: draws the mask,
/// then the noise, asked for with `noise_parameters`, and sets the body to
/// the dot product of the mask with the key, plus the noise, plus the
/// plaintext.
pub fn encrypt_lwe_ciphertext<T: UnsignedInteger, G: RandomGenerator<T>>(
    lwe_secret_key: &LweSecretKey<T>,
    output: &mut LweCiphertext<T>,
    encoded: Plaintext<T>,
    noise_parameters: StandardDev,
    generator: &mut EncryptionRandomGenerator<G>,
)
    requires
        old(output)@.mask.len() == lwe_secret_key@.len(),
    ensures
        final(generator).mask_draws() == old(generator).mask_draws() + final(output)@.mask,
        final(generator).noise_draws().len() == old(generator).noise_draws().len() + 1,
        final(generator).noise_draws().drop_last() == old(generator).noise_draws(),
        final(generator).noise_requests() == old(generator).noise_requests().push(
            noise_parameters,
        ),
        final(output)@.mask.len() == lwe_secret_key@.len(),
        final(output)@ == encryption_of(
            lwe_secret_key@,
            encoded.0.as_nat(),
            final(output)@.mask,
            final(generator).noise_draws().last(),
            T::spec_bits(),
        ),
{
    let ghost range = pow2(T::spec_bits()) as int;
    let ghost drawn_before = generator.mask_draws();
    let mut i: usize = 0;
    assert(drawn_before + scalars_as_nat(output.mask@.take(0)) =~= drawn_before);
    while i < output.mask.len()
        invariant
            i <= output.mask@.len(),
            output.mask@.len() == old(output).mask@.len(),
            generator.noise_draws() == old(generator).noise_draws(),
            generator.noise_requests() == old(generator).noise_requests(),
            generator.mask_draws() == drawn_before + scalars_as_nat(output.mask@.take(i as int)),
        decreases output.mask@.len() - i,
    {
        let scalar: T = generator.random_mask_scalar();
        output.mask.set(i, scalar);
        proof {
            assert(scalars_as_nat(output.mask@.take(i + 1)) =~= scalars_as_nat(
                output.mask@.take(i as int),
            ).push(scalar.as_nat()));
            assert(generator.mask_draws() =~= drawn_before + scalars_as_nat(
                output.mask@.take(i + 1),
            ));
        }
        i += 1;
    }
    proof {
        assert(output.mask@.take(i as int) =~= output.mask@);
    }
    let noise: T = generator.random_noise(noise_parameters);
    let product = slice_wrapping_dot_product(&output.mask, lwe_secret_key.as_ref());
    proof {
        let dot = dot_product(output@.mask, lwe_secret_key@) as int;
        lemma_pow2_pos(T::spec_bits());
        lemma_add_mod_noop_right(noise.as_nat() as int, dot, range);
        lemma_add_mod_noop(noise.as_nat() + dot, encoded.0.as_nat() as int, range);
        lemma_add_mod_noop_right(encoded.0.as_nat() as int, noise.as_nat() + dot, range);
        lemma_mod_twice(noise.as_nat() + dot, range);
        lemma_add_mod_noop_right(
            ((noise.as_nat() + dot) % range),
            encoded.0.as_nat() as int,
            range,
        );
        assert(generator.noise_draws().drop_last() =~= old(generator).noise_draws());
    }
    output.body = noise.wrapping_add(product).wrapping_add(encoded.0);
}

/// The encryptions of `plaintexts` under `key`, one after the other: each
/// takes as many scalars of `masks` as the key has, where the one before it
/// stopped, and one scalar of `noises`.
pub open spec fn list_encryption_of(
    key: Seq<nat>,
    plaintexts: Seq<nat>,
    masks: Seq<nat>,
    noises: Seq<nat>,
    width: nat,
) -> Seq<LweCiphertextView> {
    Seq::new(
        plaintexts.len(),
        |c: int|
            encryption_of(
                key,
                plaintexts[c],
                masks.subrange(c * key.len(), c * key.len() + key.len()),
                noises[c],
                width,
            ),
    )
}

/// Encrypts each plaintext of `encoded` under `lwe_secret_key` into the
/// ciphertext of `output` at the same position, in the order of the list,
/// with fresh randomness for each, the noise of each asked for with
/// `noise_parameters`.
pub fn encrypt_lwe_ciphertext_list<T: UnsignedInteger, G: RandomGenerator<T>>(
    lwe_secret_key: &LweSecretKey<T>,
    output: &mut LweCiphertextList<T>,
    encoded: &PlaintextList<T>,
    noise_parameters: StandardDev,
    generator: &mut EncryptionRandomGenerator<G>,
)
    requires
        old(output).wf(),
        old(output)@.len() == encoded@.len(),
        old(output).spec_lwe_size() == lwe_secret_key@.len() + 1,
    ensures
        final(output).wf(),
        final(output).spec_lwe_size() == old(output).spec_lwe_size(),
        ({
            let masks = final(generator).mask_draws().skip(
                old(generator).mask_draws().len() as int,
            );
            let noises = final(generator).noise_draws().skip(
                old(generator).noise_draws().len() as int,
            );
            &&& final(generator).mask_draws() == old(generator).mask_draws() + masks
            &&& final(generator).noise_draws() == old(generator).noise_draws() + noises
            &&& final(generator).noise_requests() == old(generator).noise_requests() + Seq::new(
                encoded@.len(),
                |i: int| noise_parameters,
            )
            &&& masks.len() == encoded@.len() * lwe_secret_key@.len()
            &&& noises.len() == encoded@.len()
            &&& final(output)@ == list_encryption_of(
                lwe_secret_key@,
                encoded@,
                masks,
                noises,
                T::spec_bits(),
            )
        }),
{
    let ghost masks_before = generator.mask_draws();
    let ghost noises_before = generator.noise_draws();
    let ghost requests_before = generator.noise_requests();
    let ghost masks: Seq<nat> = Seq::empty();
    let ghost noises: Seq<nat> = Seq::empty();
    let ghost key = lwe_secret_key@;
    let ghost dimension = lwe_secret_key@.len() as int;
    let count = encoded.plaintext_count().0;
    let mut buffer = LweCiphertext::new(T::zero(), output.lwe_size());
    let mut c: usize = 0;
    proof {
        assert(masks_before + masks =~= masks_before);
        assert(noises_before + noises =~= noises_before);
        assert(requests_before + Seq::new(0, |i: int| noise_parameters) =~= requests_before);
    }
    while c < count
        invariant
            c <= count,
            count == encoded@.len(),
            key == lwe_secret_key@,
            dimension == key.len(),
            output.wf(),
            output.spec_lwe_size() == old(output).spec_lwe_size(),
            output.spec_lwe_size() == dimension + 1,
            output@.len() == count,
            buffer@.mask.len() == dimension,
            generator.mask_draws() == masks_before + masks,
            generator.noise_draws() == noises_before + noises,
            generator.noise_requests() == requests_before + Seq::new(
                c as nat,
                |i: int| noise_parameters,
            ),
            masks.len() == c * dimension,
            noises.len() == c,
            forall|k: int|
                0 <= k < c ==> #[trigger] output@[k] == encryption_of(
                    key,
                    encoded@[k],
                    masks.subrange(k * dimension, k * dimension + dimension),
                    noises[k],
                    T::spec_bits(),
                ),
        decreases count - c,
    {
        let ghost masks_so_far = masks;
        let ghost noises_so_far = noises;
        let ghost list_so_far = output@;
        encrypt_lwe_ciphertext(
            lwe_secret_key,
            &mut buffer,
            encoded.get(c),
            noise_parameters,
            generator,
        );
        output.set(c, &buffer);
        proof {
            let noise = generator.noise_draws().last();
            masks = masks_so_far + buffer@.mask;
            noises = noises_so_far.push(noise);
            assert(generator.mask_draws() =~= masks_before + masks);
            assert(generator.noise_draws() =~= noises_before + noises) by {
                assert(generator.noise_draws() =~= generator.noise_draws().drop_last().push(noise));
            }
            assert(generator.noise_requests() =~= requests_before + Seq::new(
                (c + 1) as nat,
                |i: int| noise_parameters,
            ));
            assert(masks.len() == (c + 1) * dimension) by (nonlinear_arith)
                requires
                    masks.len() == c * dimension + dimension,
            ;
            assert forall|k: int| 0 <= k < c + 1 implies #[trigger] output@[k] == encryption_of(
                key,
                encoded@[k],
                masks.subrange(k * dimension, k * dimension + dimension),
                noises[k],
                T::spec_bits(),
            ) by {
                lemma_slot_bounds(k, c + 1, dimension);
                if k < c {
                    lemma_slots_disjoint(k, c as int, dimension);
                    assert(output@[k] == list_so_far[k]);
                    assert(masks.subrange(k * dimension, k * dimension + dimension)
                        =~= masks_so_far.subrange(k * dimension, k * dimension + dimension));
                } else {
                    assert(masks.subrange(k * dimension, k * dimension + dimension)
                        =~= buffer@.mask);
                }
            }
        }
        c += 1;
    }
    proof {
        assert(generator.mask_draws().skip(masks_before.len() as int) =~= masks);
        assert(generator.noise_draws().skip(noises_before.len() as int) =~= noises);
        assert(output@ =~= list_encryption_of(key, encoded@, masks, noises, T::spec_bits()));
    }
}

/// Encrypts `encoded` under `lwe_secret_key` into the compressed ciphertext
/// `output`, with a mask and a noise drawn from `generator`, the noise asked
/// for with `noise_parameters`: the body is the dot product of the mask with
/// the key, plus the noise, plus the plaintext.
///
/// The mask itself is not kept: it is for the caller to have made the source
/// of the masks of `generator` from the seed of `output`.
pub fn encrypt_seeded_lwe_ciphertext_with_existing_generator<
    T: UnsignedInteger,
    G: RandomGenerator<T>,
>(
    lwe_secret_key: &LweSecretKey<T>,
    output: &mut SeededLweCiphertext<T>,
    encoded: Plaintext<T>,
    noise_parameters: StandardDev,
    generator: &mut EncryptionRandomGenerator<G>,
)
    requires
        old(output).spec_lwe_dimension() == lwe_secret_key@.len(),
    ensures
        final(output).spec_lwe_dimension() == old(output).spec_lwe_dimension(),
        final(output).spec_seed() == old(output).spec_seed(),
        ({
            let mask = final(generator).mask_draws().skip(
                old(generator).mask_draws().len() as int,
            );
            &&& final(generator).mask_draws() == old(generator).mask_draws() + mask
            &&& mask.len() == lwe_secret_key@.len()
            &&& final(generator).noise_draws().len() == old(generator).noise_draws().len() + 1
            &&& final(generator).noise_draws().drop_last() == old(generator).noise_draws()
            &&& final(generator).noise_requests() == old(generator).noise_requests().push(
                noise_parameters,
            )
            &&& final(output).spec_body() == lwe_body(
                mask,
                lwe_secret_key@,
                final(generator).noise_draws().last(),
                encoded.0.as_nat(),
                T::spec_bits(),
            )
        }),
{
    let mut ciphertext = LweCiphertext::new(T::zero(), output.lwe_size());
    encrypt_lwe_ciphertext(lwe_secret_key, &mut ciphertext, encoded, noise_parameters, generator);
    proof {
        assert(generator.mask_draws().skip(old(generator).mask_draws().len() as int)
            =~= ciphertext@.mask);
    }
    output.set_body(ciphertext.body);
}

/// Encrypts `encoded` under `lwe_secret_key` into the compressed ciphertext
/// `output`: the mask comes from the generator that starts from the seed of
/// `output`, the noise from a generator that starts from a fresh seed of
/// `noise_seeder`.
///
/// The generator that was drawn from is handed back. Nothing but this
/// encryption was drawn from it: as many scalars of mask as the key has, and
/// one scalar of noise, asked for with `noise_parameters`. The body of
/// `output` is the dot product of that mask with the key, plus that noise,
/// plus the plaintext.
pub fn encrypt_seeded_lwe_ciphertext<
    T: UnsignedInteger,
    G: SeedableGenerator + RandomGenerator<T>,
    S: Seeder,
>(
    lwe_secret_key: &LweSecretKey<T>,
    output: &mut SeededLweCiphertext<T>,
    encoded: Plaintext<T>,
    noise_parameters: StandardDev,
    noise_seeder: &mut S,
) -> (generator: EncryptionRandomGenerator<G>)
    requires
        old(output).spec_lwe_dimension() == lwe_secret_key@.len(),
    ensures
        final(output).spec_lwe_dimension() == old(output).spec_lwe_dimension(),
        final(output).spec_seed() == old(output).spec_seed(),
        generator.mask_draws().len() == lwe_secret_key@.len(),
        generator.noise_draws().len() == 1,
        generator.noise_requests() == seq![noise_parameters],
        final(output).spec_body() == lwe_body(
            generator.mask_draws(),
            lwe_secret_key@,
            generator.noise_draws()[0],
            encoded.0.as_nat(),
            T::spec_bits(),
        ),
{
    let mut generator = EncryptionRandomGenerator::<G>::new(
        output.compression_seed(),
        noise_seeder,
    );
    encrypt_seeded_lwe_ciphertext_with_existing_generator(
        lwe_secret_key,
        output,
        encoded,
        noise_parameters,
        &mut generator,
    );
    proof {
        assert(generator.mask_draws().skip(0) =~= generator.mask_draws());
        assert(generator.noise_requests() =~= seq![noise_parameters]);
    }
    generator
}

/// Decrypts `ciphertext` under `lwe_secret_key`: what comes out is the
/// plaintext with the noise of the encryption still on it.
pub fn decrypt_lwe_ciphertext<T: UnsignedInteger>(
    lwe_secret_key: &LweSecretKey<T>,
    ciphertext: &LweCiphertext<T>,
) -> (plaintext: Plaintext<T>)
    requires
        ciphertext@.mask.len() == lwe_secret_key@.len(),
    ensures
        plaintext.0.as_nat() == lwe_phase(ciphertext@, lwe_secret_key@, T::spec_bits()),
{
    let product = slice_wrapping_dot_product(&ciphertext.mask, lwe_secret_key.as_ref());
    proof {
        lemma_pow2_pos(T::spec_bits());
        lemma_sub_mod_noop_right(
            ciphertext@.body as int,
            dot_product(ciphertext@.mask, lwe_secret_key@) as int,
            pow2(T::spec_bits()) as int,
        );
    }
    Plaintext(ciphertext.body.wrapping_sub(product))
}

} // verus!
