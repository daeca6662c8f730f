//! Key generation, signing and verification.
//!
//! Every byte string that the scheme derives comes from SHAKE256; what the
//! hash returns is named by the spec function `shake256`, and the contracts
//! of this module are stated over that name.

use crate::f16::{all_nibbles, F16, lemma_low_nibble, lemma_values_nibbles, values};
use crate::linear_laws::nibble_rows;
use crate::linear_part_laws::ls_of;
use crate::matrix::{flatten, has_shape, Matrix, unflatten};
use crate::mayo_operations::{
    add_mvector_sequences_operator, attempt_inputs, batch_views, batches_add, batches_from_flat,
    eval_mayo_polynomial, flat_from_batches, flatten_vectors, lemma_flatten_len,
    lemma_flatten_unflatten, lemma_vector_nibbles, map_of, map_shaped, o_transpose_times,
    o_transpose_times_mvector_sequence_operator, oil_shaped, p1_times_o, p1_times_o_operator,
    PublicMap, sign_attempt, upper_of_batches, upper_rows, vectors_from_flat, whipped_map,
};
use crate::mvector::MVector;
use crate::params::{
    checked_params, lemma_named_sets_valid, Mayo1, MayoParams, ParamSet, sizes_agree,
    spec_params_of,
};
use crate::trapdoor_laws::p3_of;
use crate::vector::{
    decode_nibbles, encode_nibbles, lemma_encode_decode_roundtrip, lemma_unpack_pack, low_nibbles,
    nibble_at, pack_byte, packed_len, Vector, vector_views,
};
use rand::RngCore;
use rand::rngs::OsRng;
use sha3::Shake256;
use sha3::digest::{ExtendableOutput, Update, XofReader};
use vstd::prelude::*;

verus! {

/// What can go wrong in key generation, signing and verification.
#[derive(Debug, Clone, Copy, PartialEq, Eq, Structural)]
pub enum CryptoError {
    /// The system's random number generator gave no seed.
    KeyGenerationError,
    /// No signing attempt within the bound gave a signature, or the
    /// system's random number generator gave no salt.
    SigningError,
    /// A signature that was just made did not verify.
    VerificationError,
    /// A key has the wrong length.
    InvalidKeyLength,
    /// A matrix operation was asked of matrices of the wrong shape.
    MatrixError,
    /// A parameter set is unusable, or a length or dimension does not fit it.
    ParameterError,
}

impl CryptoError {
    /// A short text for the error.
    pub fn message(&self) -> (r: String)
        ensures
            r@ == (match *self {
                CryptoError::KeyGenerationError => "Key generation failed"@,
                CryptoError::SigningError => "Signing failed"@,
                CryptoError::VerificationError => "Verification failed"@,
                CryptoError::InvalidKeyLength => "Invalid key length"@,
                CryptoError::MatrixError => "Matrix operation failed"@,
                CryptoError::ParameterError => "Invalid parameters"@,
            }),
    {
        match self {
            CryptoError::KeyGenerationError => "Key generation failed".to_string(),
            CryptoError::SigningError => "Signing failed".to_string(),
            CryptoError::VerificationError => "Verification failed".to_string(),
            CryptoError::InvalidKeyLength => "Invalid key length".to_string(),
            CryptoError::MatrixError => "Matrix operation failed".to_string(),
            CryptoError::ParameterError => "Invalid parameters".to_string(),
        }
    }
}

/// The first `output_len` bytes of the SHAKE256 output for `input`.
pub uninterp spec fn shake256(input: Seq<u8>, output_len: nat) -> Seq<u8>;

/// SHAKE256 of `input`, squeezed to `output_len` bytes, computed by the
/// `sha3` crate: the input is absorbed by `Update::update`, the state is
/// finalised by `ExtendableOutput::finalize_xof`, and `XofReader::read` fills
/// a buffer of `output_len` bytes. The result is a function of the two
/// arguments alone and has the length asked for; nothing else is claimed of it.
#[verifier::external_body]
pub fn shake256_digest(input: &[u8], output_len: usize) -> (output: Vec<u8>)
    ensures
        output@ == shake256(input@, output_len as nat),
        output@.len() == output_len,
{
    let mut shake = Shake256::default();
    shake.update(input);
    let mut output = vec![0u8; output_len];
    let mut reader = shake.finalize_xof();
    reader.read(&mut output);
    output
}

/// `len` bytes from the operating system's random number generator, through
/// `OsRng::try_fill_bytes` of the `rand` crate; `None` when the generator
/// reports an error. Of the bytes only their number is known.
#[verifier::external_body]
fn os_random_bytes(len: usize) -> (r: Option<Vec<u8>>)
    ensures
        r.is_some() ==> r.unwrap()@.len() == len,
{
    let mut buffer = vec![0u8; len];
    match OsRng.try_fill_bytes(&mut buffer) {
        Ok(()) => Some(buffer),
        Err(_) => None,
    }
}

/// The bytes of `a` followed by those of `b`.
pub fn concat_bytes(a: &[u8], b: &[u8]) -> (r: Vec<u8>)
    ensures
        r@ == a@ + b@,
{
    let mut out: Vec<u8> = Vec::new();
    let mut i: usize = 0;
    while i < a.len()
        invariant
            i <= a@.len(),
            out@ == a@.take(i as int),
        decreases a@.len() - i,
    {
        proof {
            assert(a@.take(i as int + 1) =~= a@.take(i as int).push(a@[i as int]));
        }
        out.push(a[i]);
        i += 1;
    }
    assert(a@.take(a@.len() as int) =~= a@);
    assert(a@ + b@.take(0) =~= a@);
    let mut j: usize = 0;
    while j < b.len()
        invariant
            j <= b@.len(),
            out@ == a@ + b@.take(j as int),
        decreases b@.len() - j,
    {
        proof {
            assert(a@ + b@.take(j as int + 1) =~= (a@ + b@.take(j as int)).push(b@[j as int]));
        }
        out.push(b[j]);
        j += 1;
    }
    assert(b@.take(b@.len() as int) =~= b@);
    out
}

/// The bytes of `src` from `lo` up to, not including, `hi`.
pub fn copy_bytes(src: &[u8], lo: usize, hi: usize) -> (r: Vec<u8>)
    requires
        lo <= hi <= src@.len(),
    ensures
        r@ == src@.subrange(lo as int, hi as int),
{
    let mut out: Vec<u8> = Vec::with_capacity(hi - lo);
    let mut i: usize = lo;
    while i < hi
        invariant
            lo <= i <= hi <= src@.len(),
            out@ == src@.subrange(lo as int, i as int),
        decreases hi - i,
    {
        proof {
            assert(src@.subrange(lo as int, i as int + 1) =~= src@.subrange(lo as int, i as int).push(
                src@[i as int],
            ));
        }
        out.push(src[i]);
        i += 1;
    }
    out
}

/// The first `n` nibbles of `input`, with zero for every nibble that
/// `input` is too short to hold.
pub open spec fn decode_padded(input: Seq<u8>, n: nat) -> Seq<u8> {
    Seq::new(
        n,
        |i: int|
            if i / 2 < input.len() {
                nibble_at(input, i)
            } else {
                0u8
            },
    )
}

/// The packed form of the low nibbles of `input`.
pub open spec fn encode_masked(input: Seq<u8>) -> Seq<u8> {
    Seq::new(
        packed_len(input.len()),
        |j: int|
            pack_byte(
                input[2 * j] & 0x0f,
                if 2 * j + 1 < input.len() {
                    input[2 * j + 1] & 0x0f
                } else {
                    0u8
                },
            ),
    )
}

/// The first `count` nibbles that `input` packs, low nibble first; a nibble
/// beyond the end of `input` is zero.
pub fn decode_elements(input: &[u8], count: usize) -> (output: Vec<u8>)
    ensures
        output@ == decode_padded(input@, count as nat),
        input@.len() >= packed_len(count as nat) ==> output@ == decode_nibbles(input@, count as nat),
        all_nibbles(output@),
{
    let mut output: Vec<u8> = Vec::with_capacity(count);
    let mut i: usize = 0;
    while i < count
        invariant
            i <= count,
            output@.len() == i,
            forall|t: int| 0 <= t < i ==> #[trigger] output@[t] == decode_padded(input@, count as nat)[t],
            forall|t: int| 0 <= t < i ==> #[trigger] output@[t] < 16,
        decreases count - i,
    {
        let nibble = if i / 2 < input.len() {
            let byte = input[i / 2];
            proof {
                lemma_unpack_pack(byte);
            }
            if i % 2 == 0 {
                byte & 0x0f
            } else {
                (byte >> 4) & 0x0f
            }
        } else {
            0u8
        };
        output.push(nibble);
        i += 1;
    }
    assert(output@ =~= decode_padded(input@, count as nat));
    if input.len() >= count / 2 + count % 2 {
        assert(output@ =~= decode_nibbles(input@, count as nat));
    }
    output
}

/// The packed form of `input`, two entries to a byte, low nibble first; only
/// the low nibble of every entry is kept.
pub fn encode_elements(input: &[u8]) -> (output: Vec<u8>)
    ensures
        output@ == encode_masked(input@),
        all_nibbles(input@) ==> output@ == encode_nibbles(input@),
{
    let n = input.len();
    let num_bytes = n / 2 + n % 2;
    let mut output: Vec<u8> = Vec::with_capacity(num_bytes);
    let mut j: usize = 0;
    while j < num_bytes
        invariant
            j <= num_bytes,
            n == input@.len(),
            num_bytes == packed_len(n as nat),
            output@.len() == j,
            forall|t: int| 0 <= t < j ==> #[trigger] output@[t] == encode_masked(input@)[t],
        decreases num_bytes - j,
    {
        let lo = input[2 * j] & 0x0f;
        let hi = if 2 * j + 1 < n {
            input[2 * j + 1] & 0x0f
        } else {
            0u8
        };
        output.push(lo | (hi << 4));
        j += 1;
    }
    assert(output@ =~= encode_masked(input@));
    proof {
        if all_nibbles(input@) {
            assert forall|t: int| 0 <= t < num_bytes implies encode_masked(input@)[t]
                == encode_nibbles(input@)[t] by {
                lemma_low_nibble(input@[2 * t]);
                if 2 * t + 1 < n {
                    lemma_low_nibble(input@[2 * t + 1]);
                }
            }
            assert(output@ =~= encode_nibbles(input@));
        }
    }
    output
}

/// The number of positions below `n` at which `a` and `b` agree.
pub open spec fn count_matches(a: Seq<u8>, b: Seq<u8>, n: int) -> int
    decreases n,
{
    if n <= 0 {
        0
    } else {
        count_matches(a, b, n - 1) + if a[n - 1] == b[n - 1] {
            1int
        } else {
            0int
        }
    }
}

/// Two sequences agree at every position below `n` exactly when they agree
/// at `n` positions.
pub proof fn lemma_count_matches(a: Seq<u8>, b: Seq<u8>, n: int)
    requires
        0 <= n <= a.len(),
        n <= b.len(),
    ensures
        0 <= count_matches(a, b, n) <= n,
        count_matches(a, b, n) == n <==> a.subrange(0, n) == b.subrange(0, n),
    decreases n,
{
    let an = a.subrange(0, n);
    let bn = b.subrange(0, n);
    if n > 0 {
        let ap = a.subrange(0, n - 1);
        let bp = b.subrange(0, n - 1);
        lemma_count_matches(a, b, n - 1);
        if count_matches(a, b, n) == n {
            assert(ap == bp);
            assert forall|i: int| 0 <= i < n implies #[trigger] an[i] == bn[i] by {
                if i < n - 1 {
                    assert(ap[i] == bp[i]);
                }
            }
            assert(an =~= bn);
        }
        if an == bn {
            assert(a[n - 1] == an[n - 1]);
            assert(b[n - 1] == bn[n - 1]);
            assert forall|i: int| 0 <= i < n - 1 implies #[trigger] ap[i] == bp[i] by {
                assert(an[i] == bn[i]);
            }
            assert(ap =~= bp);
        }
    } else {
        assert(an =~= bn);
    }
}

/// The number of positions at which the evaluation has the target's value,
/// over the length of the shorter of the two.
pub fn count_exact_matches(evaluation: &[F16], target: &[u8]) -> (count: usize)
    ensures
        count == count_matches(
            values(evaluation@),
            target@,
            if evaluation@.len() <= target@.len() {
                evaluation@.len() as int
            } else {
                target@.len() as int
            },
        ),
        count <= evaluation@.len(),
        count <= target@.len(),
{
    let n = if evaluation.len() <= target.len() {
        evaluation.len()
    } else {
        target.len()
    };
    let mut count: usize = 0;
    let mut i: usize = 0;
    while i < n
        invariant
            i <= n,
            n <= evaluation@.len(),
            n <= target@.len(),
            count <= i,
            count == count_matches(values(evaluation@), target@, i as int),
        decreases n - i,
    {
        if evaluation[i].value() == target[i] {
            count += 1;
        }
        i += 1;
    }
    count
}

/// The field elements that an expansion stream packs.
pub open spec fn expansion_elements(ps: ParamSet, stream: Seq<u8>) -> Seq<u8> {
    decode_nibbles(stream, ps.spec_total_elements())
}

/// The coefficients of `P1` in an expansion stream, batch after batch.
pub open spec fn flat_p1(ps: ParamSet, stream: Seq<u8>) -> Seq<u8> {
    expansion_elements(ps, stream).subrange(0, ps.m * ps.spec_p1_count())
}

/// The coefficients of `P2` in an expansion stream, batch after batch.
pub open spec fn flat_p2(ps: ParamSet, stream: Seq<u8>) -> Seq<u8> {
    expansion_elements(ps, stream).subrange(
        ps.m * ps.spec_p1_count(),
        ps.m * ps.spec_p1_count() + ps.m * ps.spec_p2_count(),
    )
}

/// The third coefficient sequence of an expansion stream, batch after batch.
pub open spec fn flat_p3(ps: ParamSet, stream: Seq<u8>) -> Seq<u8> {
    expansion_elements(ps, stream).subrange(
        ps.m * ps.spec_p1_count() + ps.m * ps.spec_p2_count(),
        ps.m * ps.spec_p1_count() + ps.m * ps.spec_p2_count() + ps.m * ps.spec_p3_count(),
    )
}

/// The batches of `P1` in an expansion stream, one for every position of the
/// upper triangle of the vinegar variables.
pub open spec fn batches_p1(ps: ParamSet, stream: Seq<u8>) -> Seq<Seq<u8>> {
    unflatten(flat_p1(ps, stream), ps.spec_p1_count(), ps.m as nat)
}

/// The batches of `P2` in an expansion stream, one for every pair of a
/// vinegar and an oil variable.
pub open spec fn batches_p2(ps: ParamSet, stream: Seq<u8>) -> Seq<Seq<u8>> {
    unflatten(flat_p2(ps, stream), ps.spec_p2_count(), ps.m as nat)
}

/// Whether `p1`, `p2` and `p3` are the three coefficient sequences that the
/// seed `seed` expands to.
pub open spec fn is_expansion(
    ps: ParamSet,
    seed: Seq<u8>,
    p1: Seq<u8>,
    p2: Seq<u8>,
    p3: Seq<u8>,
) -> bool {
    let stream = shake256(seed, ps.spec_expansion_bytes());
    &&& p1 == flat_p1(ps, stream)
    &&& p2 == flat_p2(ps, stream)
    &&& p3 == flat_p3(ps, stream)
}

/// Expansion is deterministic: any two expansions of one seed are identical
/// in all three coefficient sequences.
pub proof fn lemma_expansion_is_deterministic(
    ps: ParamSet,
    seed: Seq<u8>,
    a1: Seq<u8>,
    a2: Seq<u8>,
    a3: Seq<u8>,
    b1: Seq<u8>,
    b2: Seq<u8>,
    b3: Seq<u8>,
)
    requires
        is_expansion(ps, seed, a1, a2, a3),
        is_expansion(ps, seed, b1, b2, b3),
    ensures
        a1 == b1,
        a2 == b2,
        a3 == b3,
{
}

/// The three coefficient sequences that an expansion stream packs.
pub fn split_expansion(ps: &ParamSet, stream: &[u8]) -> (r: (Vec<F16>, Vec<F16>, Vec<F16>))
    requires
        ps.wf(),
        stream@.len() == ps.spec_expansion_bytes(),
    ensures
        values(r.0@) == flat_p1(*ps, stream@),
        values(r.1@) == flat_p2(*ps, stream@),
        values(r.2@) == flat_p3(*ps, stream@),
        r.0@.len() == ps.m * ps.spec_p1_count(),
        r.1@.len() == ps.m * ps.spec_p2_count(),
        r.2@.len() == ps.m * ps.spec_p3_count(),
{
    let total = ps.total_elements();
    let n1 = ps.batch_elements(ps.p1_count());
    let n2 = ps.batch_elements(ps.p2_count());
    assert(stream@.subrange(0, 0 + packed_len(total as nat) as int) =~= stream@);
    let all = Vector::decode_at(stream, 0, total);
    let p1 = all.slice(0, n1).into_elements();
    let p2 = all.slice(n1, n1 + n2).into_elements();
    let p3 = all.slice(n1 + n2, total).into_elements();
    assert(values(p1@).len() == p1@.len());
    assert(values(p2@).len() == p2@.len());
    assert(values(p3@).len() == p3@.len());
    (p1, p2, p3)
}

/// The three coefficient sequences that the public seed `seed_pk` expands
/// to under the parameter set `P`, each batch after batch. An error when the
/// parameter set is unusable.
pub fn expand_matrices<P: MayoParams>(seed_pk: &[u8]) -> (r: Result<
    (Vec<F16>, Vec<F16>, Vec<F16>),
    CryptoError,
>)
    ensures
        r.is_ok() <==> spec_params_of::<P>().wf() && sizes_agree::<P>(),
        r.is_err() ==> r.unwrap_err() == CryptoError::ParameterError,
        r.is_ok() ==> {
            let ps = spec_params_of::<P>();
            &&& is_expansion(
                ps,
                seed_pk@,
                values(r.unwrap().0@),
                values(r.unwrap().1@),
                values(r.unwrap().2@),
            )
            &&& r.unwrap().0@.len() == ps.m * ps.spec_p1_count()
            &&& r.unwrap().1@.len() == ps.m * ps.spec_p2_count()
            &&& r.unwrap().2@.len() == ps.m * ps.spec_p3_count()
        },
{
    match checked_params::<P>() {
        Some(ps) => {
            let stream = shake256_digest(seed_pk, ps.expansion_bytes());
            Ok(split_expansion(&ps, stream.as_slice()))
        },
        None => Err(CryptoError::ParameterError),
    }
}

/// The batches of `P1` and `P2` that an expansion stream packs.
pub fn expand_public_batches(ps: &ParamSet, stream: &[u8]) -> (r: (Vec<MVector>, Vec<MVector>))
    requires
        ps.wf(),
        stream@.len() == ps.spec_expansion_bytes(),
    ensures
        batch_views(r.0@) == batches_p1(*ps, stream@),
        batch_views(r.1@) == batches_p2(*ps, stream@),
        has_shape(batch_views(r.0@), ps.spec_p1_count(), ps.m as nat),
        has_shape(batch_views(r.1@), ps.spec_p2_count(), ps.m as nat),
{
    let flat = split_expansion(ps, stream);
    proof {
        assert(ps.spec_p1_count() * ps.m == ps.m * ps.spec_p1_count()) by (nonlinear_arith);
        assert(ps.spec_p2_count() * ps.m == ps.m * ps.spec_p2_count()) by (nonlinear_arith);
    }
    let p1 = batches_from_flat(flat.0.as_slice(), ps.p1_count(), ps.m);
    let p2 = batches_from_flat(flat.1.as_slice(), ps.p2_count(), ps.m);
    (p1, p2)
}

/// The oil matrix in the expansion `e` of a secret seed: `v` rows of `o`
/// entries, packed after the public seed.
pub open spec fn oil_matrix(ps: ParamSet, e: Seq<u8>) -> Seq<Seq<u8>> {
    unflatten(
        decode_nibbles(
            e.subrange(ps.pk_seed_bytes as int, ps.spec_secret_bytes() as int),
            ps.spec_p2_count(),
        ),
        ps.spec_v(),
        ps.o as nat,
    )
}

/// The batches of `L = P2 + P1 * O`.
pub open spec fn keygen_l(ps: ParamSet, p1: Seq<Seq<u8>>, p2: Seq<Seq<u8>>, om: Seq<Seq<u8>>) -> Seq<
    Seq<u8>,
> {
    batches_add(p1_times_o(ps, p1, om, false), p2)
}

/// The batches of `L + P1^T * O`, which give the part of a pair term that
/// is linear in the oil variables.
pub open spec fn signing_l(ps: ParamSet, p1: Seq<Seq<u8>>, p2: Seq<Seq<u8>>, om: Seq<Seq<u8>>) -> Seq<
    Seq<u8>,
> {
    batches_add(keygen_l(ps, p1, p2, om), p1_times_o(ps, p1, om, true))
}

/// The batches of `P3 = Upper(O^T * L)`.
pub open spec fn derived_p3(ps: ParamSet, p1: Seq<Seq<u8>>, p2: Seq<Seq<u8>>, om: Seq<Seq<u8>>) -> Seq<
    Seq<u8>,
> {
    upper_rows(o_transpose_times(ps, om, keygen_l(ps, p1, p2, om)), ps.o as int, ps.o as int)
}

/// What a secret seed expands to: the oil matrix, the public map, the
/// batches that signing needs, and the compact public key.
pub struct SecretMaterial {
    pub om: Seq<Seq<u8>>,
    pub map: PublicMap,
    pub l: Seq<Seq<u8>>,
    pub public_key: Seq<u8>,
}

/// The material of the secret key whose seed expands to `e`, with `stream`
/// the expansion of the public seed at the head of `e`.
pub open spec fn material(ps: ParamSet, e: Seq<u8>, stream: Seq<u8>) -> SecretMaterial {
    let om = oil_matrix(ps, e);
    let p1 = batches_p1(ps, stream);
    let p2 = batches_p2(ps, stream);
    let p3 = derived_p3(ps, p1, p2, om);
    SecretMaterial {
        om,
        map: PublicMap { p1, p2, p3 },
        l: signing_l(ps, p1, p2, om),
        public_key: e.subrange(0, ps.pk_seed_bytes as int) + encode_nibbles(flatten(p3)),
    }
}

/// The public seed at the head of a compact public key.
pub open spec fn seed_of_public_key(ps: ParamSet, pk: Seq<u8>) -> Seq<u8> {
    pk.subrange(0, ps.pk_seed_bytes as int)
}

/// The batches of `P3` that a compact public key packs after its seed.
pub open spec fn p3_of_public_key(ps: ParamSet, pk: Seq<u8>) -> Seq<Seq<u8>> {
    unflatten(
        decode_nibbles(
            pk.subrange(ps.pk_seed_bytes as int, ps.spec_cpk_bytes() as int),
            ps.m as nat * ps.spec_p3_count(),
        ),
        ps.spec_p3_count(),
        ps.m as nat,
    )
}

/// The batches that key expansion derives are the ones that the laws of the
/// scheme speak of.
pub proof fn lemma_key_forms(ps: ParamSet, p1: Seq<Seq<u8>>, p2: Seq<Seq<u8>>, om: Seq<Seq<u8>>)
    ensures
        derived_p3(ps, p1, p2, om) == p3_of(ps, p1, p2, om),
        signing_l(ps, p1, p2, om) == ls_of(ps, p1, p2, om),
{
}

/// A signature made of inputs at which the whipped map is the target is
/// accepted: with `sig` the packed inputs followed by `salt`, the inputs and
/// the salt are read back from `sig`, and the public key accepts it.
pub proof fn lemma_inputs_accepted(
    ps: ParamSet,
    p1: Seq<Seq<u8>>,
    p2: Seq<Seq<u8>>,
    pk: Seq<u8>,
    t: Seq<u8>,
    inputs: Seq<Seq<u8>>,
    salt: Seq<u8>,
)
    requires
        ps.wf(),
        has_shape(inputs, ps.k as nat, ps.n as nat),
        nibble_rows(inputs),
        pk.len() == ps.spec_cpk_bytes(),
        salt.len() == ps.salt_bytes,
        whipped_map(ps, PublicMap { p1, p2, p3: p3_of_public_key(ps, pk) }, inputs) == t,
    ensures
        (encode_nibbles(flatten(inputs)) + salt).len() == ps.spec_sig_bytes(),
        salt_of_signature(ps, encode_nibbles(flatten(inputs)) + salt) == salt,
        inputs_of_signature(ps, encode_nibbles(flatten(inputs)) + salt) == inputs,
        accepts(ps, p1, p2, pk, t, encode_nibbles(flatten(inputs)) + salt),
{
    let flat = flatten(inputs);
    let packed = encode_nibbles(flat);
    let sig = packed + salt;
    lemma_flatten_len(inputs, ps.k as nat, ps.n as nat);
    lemma_flatten_unflatten(inputs, ps.k as nat, ps.n as nat);
    assert(ps.k * ps.n == ps.k as nat * ps.n as nat);
    lemma_flatten_nibbles(inputs);
    lemma_encode_decode_roundtrip(flat);
    assert(sig.subrange(0, ps.spec_solution_bytes() as int) =~= packed);
    assert(sig.subrange(ps.spec_solution_bytes() as int, ps.spec_sig_bytes() as int) =~= salt);
}

/// The rows of nibbles, one after another, are nibbles.
pub proof fn lemma_flatten_nibbles(rows: Seq<Seq<u8>>)
    requires
        nibble_rows(rows),
    ensures
        all_nibbles(flatten(rows)),
    decreases rows.len(),
{
    if rows.len() > 0 {
        let init = rows.drop_last();
        assert(nibble_rows(init)) by {
            assert forall|r: int| 0 <= r < init.len() implies all_nibbles(#[trigger] init[r]) by {
                assert(init[r] == rows[r]);
            }
        }
        lemma_flatten_nibbles(init);
        assert(all_nibbles(rows.last())) by {
            assert(rows.last() == rows[rows.len() - 1]);
        }
        let f = flatten(rows);
        assert forall|i: int| 0 <= i < f.len() implies #[trigger] f[i] < 16 by {
            if i < flatten(init).len() {
                assert(f[i] == flatten(init)[i]);
            } else {
                assert(f[i] == rows.last()[i - flatten(init).len()]);
            }
        }
    }
}

/// An expanded secret key.
pub struct ExpandedSecretKey {
    /// The oil matrix `O`.
    pub matrix_o: Matrix,
    /// The batches of `P1`.
    pub p1: Vec<MVector>,
    /// The batches of `P2`.
    pub p2: Vec<MVector>,
    /// The batches of `P3`.
    pub p3: Vec<MVector>,
    /// The batches of `L + P1^T * O`.
    pub l: Vec<MVector>,
    /// The compact public key.
    pub public_key: Vec<u8>,
}

impl ExpandedSecretKey {
    /// The material that the key holds.
    pub open spec fn view(&self) -> SecretMaterial {
        SecretMaterial {
            om: self.matrix_o@,
            map: map_of(self.p1@, self.p2@, self.p3@),
            l: batch_views(self.l@),
            public_key: self.public_key@,
        }
    }

    /// Whether every part has the shape that the parameter set gives it,
    /// `P3` and `L + P1^T O` are the ones that `P1`, `P2` and `O` give, and
    /// the public key packs the key's own `P3`.
    pub open spec fn wf(&self, ps: ParamSet) -> bool {
        &&& oil_shaped(ps, &self.matrix_o)
        &&& map_shaped(ps, batch_views(self.p1@), batch_views(self.p2@), batch_views(self.p3@))
        &&& has_shape(batch_views(self.l@), ps.spec_p2_count(), ps.m as nat)
        &&& self.public_key@.len() == ps.spec_cpk_bytes()
        &&& p3_of_public_key(ps, self.public_key@) == batch_views(self.p3@)
        &&& batch_views(self.p3@) == p3_of(
            ps,
            batch_views(self.p1@),
            batch_views(self.p2@),
            self.matrix_o@,
        )
        &&& batch_views(self.l@) == ls_of(
            ps,
            batch_views(self.p1@),
            batch_views(self.p2@),
            self.matrix_o@,
        )
    }
}

/// The expanded secret key for the expansion `e` of a secret seed and the
/// expansion `stream` of its public seed: `O` is unpacked, `P1` and `P2` are
/// cut into batches, `L = P2 + P1 * O` and `P3 = Upper(O^T * L)` are
/// computed, and the public key is the public seed followed by the packed `P3`.
pub fn expand_secret_key(ps: &ParamSet, e: &[u8], stream: &[u8]) -> (key: ExpandedSecretKey)
    requires
        ps.wf(),
        e@.len() == ps.spec_secret_bytes(),
        stream@.len() == ps.spec_expansion_bytes(),
    ensures
        key@ == material(*ps, e@, stream@),
        key.wf(*ps),
{
    let v = ps.v();
    let o = ps.o;
    let count = ps.p2_count();
    let batches = expand_public_batches(ps, stream);
    let p1 = batches.0;
    let p2 = batches.1;
    let oil_elements = Vector::decode_at(e, ps.pk_seed_bytes, count).into_elements();
    assert(values(oil_elements@).len() == oil_elements@.len());
    let matrix_o = Matrix::from_flat(v, o, oil_elements.as_slice());
    let p1o = p1_times_o_operator(ps, p1.as_slice(), &matrix_o, false);
    let keygen = add_mvector_sequences_operator(p1o.as_slice(), p2.as_slice());
    let full = o_transpose_times_mvector_sequence_operator(ps, &matrix_o, keygen.as_slice());
    let p3 = upper_of_batches(ps, full.as_slice());
    let p1to = p1_times_o_operator(ps, p1.as_slice(), &matrix_o, true);
    let l = add_mvector_sequences_operator(keygen.as_slice(), p1to.as_slice());
    let flat_p3 = flat_from_batches(p3.as_slice());
    let ghost flat = values(flat_p3@);
    let packed = Vector::new(flat_p3).encode_vec();
    let seed = copy_bytes(e, 0, ps.pk_seed_bytes);
    let public_key = concat_bytes(seed.as_slice(), packed.as_slice());
    proof {
        lemma_key_forms(*ps, batch_views(p1@), batch_views(p2@), matrix_o@);
        let p3v = batch_views(p3@);
        lemma_flatten_len(p3v, ps.spec_p3_count(), ps.m as nat);
        lemma_flatten_unflatten(p3v, ps.spec_p3_count(), ps.m as nat);
        assert(ps.spec_p3_count() * ps.m == ps.m * ps.spec_p3_count()) by (nonlinear_arith);
        lemma_values_nibbles(flat_p3@);
        lemma_encode_decode_roundtrip(flat);
        assert(public_key@.subrange(ps.pk_seed_bytes as int, ps.spec_cpk_bytes() as int)
            =~= packed@);
    }
    ExpandedSecretKey { matrix_o, p1, p2, p3, l, public_key }
}

/// The `k` inputs that a signature packs before its salt.
pub open spec fn inputs_of_signature(ps: ParamSet, sig: Seq<u8>) -> Seq<Seq<u8>> {
    unflatten(
        decode_nibbles(sig.subrange(0, ps.spec_solution_bytes() as int), ps.k as nat * ps.n as nat),
        ps.k as nat,
        ps.n as nat,
    )
}

/// The salt at the end of a signature.
pub open spec fn salt_of_signature(ps: ParamSet, sig: Seq<u8>) -> Seq<u8> {
    sig.subrange(ps.spec_solution_bytes() as int, ps.spec_sig_bytes() as int)
}

/// Whether a signature is accepted for the target `t` under the public map
/// with batches `p1` and `p2` and the `P3` that the public key packs: both
/// lengths are right, and the whipped map at the signature's inputs equals
/// the target in every one of its `m` entries.
pub open spec fn accepts(
    ps: ParamSet,
    p1: Seq<Seq<u8>>,
    p2: Seq<Seq<u8>>,
    pk: Seq<u8>,
    t: Seq<u8>,
    sig: Seq<u8>,
) -> bool {
    &&& pk.len() == ps.spec_cpk_bytes()
    &&& sig.len() == ps.spec_sig_bytes()
    &&& whipped_map(
        ps,
        PublicMap { p1, p2, p3: p3_of_public_key(ps, pk) },
        inputs_of_signature(ps, sig),
    ) == t
}

/// The target that a digest and a salt give: `m` nibbles of their hash.
pub open spec fn target_of(ps: ParamSet, digest: Seq<u8>, salt: Seq<u8>) -> Seq<u8> {
    decode_nibbles(shake256(digest + salt, packed_len(ps.m as nat)), ps.m as nat)
}

/// Whether `sig` is a valid signature of `msg` under the compact public key `pk`.
pub open spec fn verify_spec(ps: ParamSet, pk: Seq<u8>, msg: Seq<u8>, sig: Seq<u8>) -> bool {
    &&& pk.len() == ps.spec_cpk_bytes()
    &&& sig.len() == ps.spec_sig_bytes()
    &&& {
        let stream = shake256(seed_of_public_key(ps, pk), ps.spec_expansion_bytes());
        let digest = shake256(msg, ps.digest_bytes as nat);
        accepts(
            ps,
            batches_p1(ps, stream),
            batches_p2(ps, stream),
            pk,
            target_of(ps, digest, salt_of_signature(ps, sig)),
            sig,
        )
    }
}

/// Whether `signature` is accepted for the target `t` under the public map
/// with the batches `p1` and `p2` and the `P3` that `public_key` packs. A
/// key or signature of the wrong length is not accepted.
pub fn verify_expanded(
    ps: &ParamSet,
    p1: &[MVector],
    p2: &[MVector],
    public_key: &[u8],
    t: &[u8],
    signature: &[u8],
) -> (r: bool)
    requires
        ps.wf(),
        has_shape(batch_views(p1@), ps.spec_p1_count(), ps.m as nat),
        has_shape(batch_views(p2@), ps.spec_p2_count(), ps.m as nat),
        t@.len() == ps.m,
    ensures
        r == accepts(*ps, batch_views(p1@), batch_views(p2@), public_key@, t@, signature@),
{
    if public_key.len() != ps.cpk_bytes() || signature.len() != ps.sig_bytes() {
        return false;
    }
    let p3_elements = ps.batch_elements(ps.p3_count());
    proof {
        assert(ps.spec_p3_count() * ps.m == ps.m * ps.spec_p3_count()) by (nonlinear_arith);
        assert(ps.k * ps.n == ps.k as nat * ps.n as nat);
    }
    let p3_flat = Vector::decode_at(public_key, ps.pk_seed_bytes, p3_elements).into_elements();
    assert(values(p3_flat@).len() == p3_flat@.len());
    let p3 = batches_from_flat(p3_flat.as_slice(), ps.p3_count(), ps.m);
    let count = crate::params::bounded_product(ps.k, ps.n);
    let solution = Vector::decode_at(signature, 0, count);
    let inputs = vectors_from_flat(&solution, ps.k, ps.n);
    let evaluation = eval_mayo_polynomial(ps, inputs.as_slice(), p1, p2, p3.as_slice());
    let matches = count_exact_matches(evaluation.elements.as_slice(), t);
    proof {
        lemma_count_matches(evaluation@, t@, ps.m as int);
        assert(evaluation@.subrange(0, ps.m as int) =~= evaluation@);
        assert(t@.subrange(0, ps.m as int) =~= t@);
    }
    matches == ps.m
}

/// The target for a digest and a salt, as `m` nibbles.
pub fn derive_target(ps: &ParamSet, digest: &[u8], salt: &[u8]) -> (t: Vec<u8>)
    requires
        ps.wf(),
    ensures
        t@ == target_of(*ps, digest@, salt@),
        t@.len() == ps.m,
        all_nibbles(t@),
{
    let input = concat_bytes(digest, salt);
    let bytes = shake256_digest(input.as_slice(), (ps.m + 1) / 2);
    decode_elements(bytes.as_slice(), ps.m)
}

/// Whether `signature` is a valid signature of `message` under the compact
/// public key `public_key`. Nothing is an error: a key or signature of the
/// wrong length is simply not valid.
pub fn verify_with(ps: &ParamSet, public_key: &[u8], message: &[u8], signature: &[u8]) -> (r: bool)
    requires
        ps.wf(),
    ensures
        r == verify_spec(*ps, public_key@, message@, signature@),
{
    if public_key.len() != ps.cpk_bytes() || signature.len() != ps.sig_bytes() {
        return false;
    }
    let seed = copy_bytes(public_key, 0, ps.pk_seed_bytes);
    let stream = shake256_digest(seed.as_slice(), ps.expansion_bytes());
    let batches = expand_public_batches(ps, stream.as_slice());
    let salt = copy_bytes(signature, ps.solution_bytes(), ps.sig_bytes());
    let digest = shake256_digest(message, ps.digest_bytes);
    let t = derive_target(ps, digest.as_slice(), salt.as_slice());
    verify_expanded(ps, batches.0.as_slice(), batches.1.as_slice(), public_key, t.as_slice(), signature)
}

/// What the hash is fed for signing attempt `ctr`: the digest, the salt and
/// the attempt counter as one byte.
pub open spec fn counter_input(digest: Seq<u8>, salt: Seq<u8>, ctr: nat) -> Seq<u8> {
    digest + salt + seq![ctr as u8]
}

/// The `k` vinegar vectors that the bytes of one attempt pack.
pub open spec fn vinegars_of(ps: ParamSet, vb: Seq<u8>) -> Seq<Seq<u8>> {
    Seq::new(
        ps.k as nat,
        |i: int|
            decode_nibbles(
                vb.subrange(i * ps.spec_v_bytes(), i * ps.spec_v_bytes() + ps.spec_v_bytes()),
                ps.spec_v(),
            ),
    )
}

/// The values for the free variables that the bytes of one attempt pack
/// after the vinegar vectors.
pub open spec fn free_of(ps: ParamSet, vb: Seq<u8>) -> Seq<u8> {
    decode_nibbles(
        vb.subrange(ps.k * ps.spec_v_bytes(), ps.k * ps.spec_v_bytes() + ps.spec_r_bytes()),
        ps.k as nat * ps.o as nat,
    )
}

/// The signature that one attempt proposes for the bytes `vb`, if its
/// signing system has a solution: the packed inputs followed by the salt.
pub open spec fn candidate(ps: ParamSet, key: SecretMaterial, t: Seq<u8>, vb: Seq<u8>, salt: Seq<u8>) -> Option<
    Seq<u8>,
> {
    match attempt_inputs(ps, key.map, key.om, key.l, t, vinegars_of(ps, vb), free_of(ps, vb)) {
        Some(inputs) => Some(encode_nibbles(flatten(inputs)) + salt),
        None => None,
    }
}

/// The signature of the first attempt, from attempt `ctr` on and below the
/// bound of the parameter set, that yields one.
pub open spec fn sign_search(
    ps: ParamSet,
    key: SecretMaterial,
    t: Seq<u8>,
    digest: Seq<u8>,
    salt: Seq<u8>,
    ctr: nat,
) -> Option<Seq<u8>>
    decreases ps.max_attempts - ctr,
{
    if ctr >= ps.max_attempts {
        None
    } else {
        match candidate(
            ps,
            key,
            t,
            shake256(counter_input(digest, salt, ctr), ps.spec_attempt_bytes()),
            salt,
        ) {
            Some(sig) => Some(sig),
            None => sign_search(ps, key, t, digest, salt, ctr + 1),
        }
    }
}

/// The material of the secret key with seed `sk`.
pub open spec fn material_of(ps: ParamSet, sk: Seq<u8>) -> SecretMaterial {
    let e = shake256(sk, ps.spec_secret_bytes());
    material(ps, e, shake256(seed_of_public_key(ps, e), ps.spec_expansion_bytes()))
}

/// The compact public key of the secret key with seed `sk`.
pub open spec fn public_key_of(ps: ParamSet, sk: Seq<u8>) -> Seq<u8> {
    material_of(ps, sk).public_key
}

/// The outcome of signing `msg` with the secret seed `sk` and the salt
/// `salt`: a key of the wrong length and a salt of the wrong length are
/// errors; otherwise the result is the signature of the first attempt that
/// yields one, and an error when no attempt within the bound does.
pub open spec fn sign_spec(ps: ParamSet, sk: Seq<u8>, msg: Seq<u8>, salt: Seq<u8>) -> Result<
    Seq<u8>,
    CryptoError,
> {
    if sk.len() != ps.sk_seed_bytes {
        Err(CryptoError::InvalidKeyLength)
    } else if salt.len() != ps.salt_bytes {
        Err(CryptoError::ParameterError)
    } else {
        let digest = shake256(msg, ps.digest_bytes as nat);
        match sign_search(ps, material_of(ps, sk), target_of(ps, digest, salt), digest, salt, 0) {
            Some(sig) => Ok(sig),
            None => Err(CryptoError::SigningError),
        }
    }
}

/// The expanded secret key for the secret seed `sk`.
pub fn expand_seed(ps: &ParamSet, sk: &[u8]) -> (key: ExpandedSecretKey)
    requires
        ps.wf(),
    ensures
        key@ == material_of(*ps, sk@),
        key.wf(*ps),
        seed_of_public_key(*ps, key@.public_key) == seed_of_public_key(
            *ps,
            shake256(sk@, ps.spec_secret_bytes()),
        ),
{
    let e = shake256_digest(sk, ps.secret_bytes());
    let seed = copy_bytes(e.as_slice(), 0, ps.pk_seed_bytes);
    let stream = shake256_digest(seed.as_slice(), ps.expansion_bytes());
    let key = expand_secret_key(ps, e.as_slice(), stream.as_slice());
    assert(key@.public_key.subrange(0, ps.pk_seed_bytes as int) =~= e@.subrange(
        0,
        ps.pk_seed_bytes as int,
    ));
    key
}

/// A signature that the expanded key of a secret seed accepts for the target
/// of a message and a salt, and that ends in that salt, is a valid signature
/// of the message under the public key of the seed.
pub proof fn lemma_accepted_signature_verifies(
    ps: ParamSet,
    sk: Seq<u8>,
    msg: Seq<u8>,
    salt: Seq<u8>,
    sig: Seq<u8>,
)
    requires
        seed_of_public_key(ps, public_key_of(ps, sk)) == seed_of_public_key(
            ps,
            shake256(sk, ps.spec_secret_bytes()),
        ),
        accepts(
            ps,
            material_of(ps, sk).map.p1,
            material_of(ps, sk).map.p2,
            public_key_of(ps, sk),
            target_of(ps, shake256(msg, ps.digest_bytes as nat), salt),
            sig,
        ),
        salt_of_signature(ps, sig) == salt,
    ensures
        verify_spec(ps, public_key_of(ps, sk), msg, sig),
{
}

/// The key pair of the secret seed `seed`: the seed itself as the compact
/// secret key, and the compact public key that it expands to. An error when
/// the seed does not have the length of the parameter set.
pub fn keypair_from_seed(ps: &ParamSet, seed: &[u8]) -> (r: Result<(Vec<u8>, Vec<u8>), CryptoError>)
    requires
        ps.wf(),
    ensures
        r.is_ok() <==> seed@.len() == ps.sk_seed_bytes,
        r.is_err() ==> r.unwrap_err() == CryptoError::InvalidKeyLength,
        r.is_ok() ==> r.unwrap().0@ == seed@ && r.unwrap().1@ == public_key_of(*ps, seed@)
            && r.unwrap().1@.len() == ps.spec_cpk_bytes(),
{
    if seed.len() != ps.sk_seed_bytes {
        return Err(CryptoError::InvalidKeyLength);
    }
    let key = expand_seed(ps, seed);
    let secret = copy_bytes(seed, 0, seed.len());
    assert(secret@ =~= seed@);
    Ok((secret, key.public_key))
}

/// One signing attempt with the bytes `vb`: the vinegar vectors and the
/// values for the free variables are unpacked, the signing system is solved,
/// and the packed inputs followed by the salt are returned. `None` when the
/// system has no solution. A signature that is returned is accepted under
/// the public key of the expanded key.
pub fn attempt_signature(ps: &ParamSet, key: &ExpandedSecretKey, t: &[u8], vb: &[u8], salt: &[u8]) -> (r:
    Option<Vec<u8>>)
    requires
        ps.wf(),
        key.wf(*ps),
        t@.len() == ps.m,
        all_nibbles(t@),
        vb@.len() == ps.spec_attempt_bytes(),
        salt@.len() == ps.salt_bytes,
    ensures
        r.is_some() <==> candidate(*ps, key@, t@, vb@, salt@).is_some(),
        r.is_some() ==> r.unwrap()@ == candidate(*ps, key@, t@, vb@, salt@).unwrap(),
        r.is_some() ==> accepts(
            *ps,
            key@.map.p1,
            key@.map.p2,
            key@.public_key,
            t@,
            r.unwrap()@,
        ),
        r.is_some() ==> salt_of_signature(*ps, r.unwrap()@) == salt@,
{
    let k = ps.k;
    let v = ps.v();
    let v_bytes = ps.v_bytes();
    let total = ps.attempt_bytes();
    let ghost target = vinegars_of(*ps, vb@);
    let mut vins: Vec<Vector> = Vec::with_capacity(k);
    let mut offset: usize = 0;
    let mut i: usize = 0;
    while i < k
        invariant
            i <= k,
            k == ps.k,
            v == ps.spec_v(),
            v_bytes == ps.spec_v_bytes(),
            total == ps.spec_attempt_bytes(),
            ps.wf(),
            vb@.len() == ps.spec_attempt_bytes(),
            offset == i * v_bytes,
            target == vinegars_of(*ps, vb@),
            vins@.len() == i,
            forall|u: int| 0 <= u < i ==> (#[trigger] vins@[u])@ == target[u],
            forall|u: int| 0 <= u < i ==> (#[trigger] vins@[u])@.len() == v,
        decreases k - i,
    {
        proof {
            assert((i + 1) * v_bytes == i * v_bytes + v_bytes) by (nonlinear_arith);
            assert((i + 1) * v_bytes <= k * v_bytes) by (nonlinear_arith)
                requires
                    i + 1 <= k,
                    0 <= v_bytes,
            ;
        }
        vins.push(Vector::decode_at(vb, offset, v));
        offset += v_bytes;
        i += 1;
    }
    assert(vector_views(vins@) =~= target);
    let free_count = crate::params::bounded_product(ps.k, ps.o);
    let free = Vector::decode_at(vb, offset, free_count);
    let t_vector = Vector::from_values(t);
    match sign_attempt(
        ps,
        key.p1.as_slice(),
        key.p2.as_slice(),
        key.p3.as_slice(),
        &key.matrix_o,
        key.l.as_slice(),
        &t_vector,
        vins.as_slice(),
        free,
    ) {
        Some(inputs) => {
            let flat = flatten_vectors(inputs.as_slice());
            let packed = flat.encode_vec();
            let signature = concat_bytes(packed.as_slice(), salt);
            proof {
                lemma_vector_nibbles(inputs@);
                lemma_inputs_accepted(
                    *ps,
                    batch_views(key.p1@),
                    batch_views(key.p2@),
                    key.public_key@,
                    t@,
                    vector_views(inputs@),
                    salt@,
                );
            }
            Some(signature)
        },
        None => None,
    }
}

/// Signs `message` with the secret seed `secret_key` and the salt `salt`.
/// The target is derived from the message digest and the salt; attempt after
/// attempt draws its vinegar vectors from the hash of digest, salt and
/// attempt counter, until one yields a signature or the bound of the
/// parameter set is reached. A signature that is returned verifies under
/// the public key of the secret seed.
pub fn sign_with_salt(ps: &ParamSet, secret_key: &[u8], message: &[u8], salt: &[u8]) -> (r: Result<
    Vec<u8>,
    CryptoError,
>)
    requires
        ps.wf(),
    ensures
        r.is_ok() <==> sign_spec(*ps, secret_key@, message@, salt@).is_ok(),
        r.is_ok() ==> r.unwrap()@ == sign_spec(*ps, secret_key@, message@, salt@).unwrap(),
        r.is_err() ==> sign_spec(*ps, secret_key@, message@, salt@) == Err::<Seq<u8>, CryptoError>(
            r.unwrap_err(),
        ),
        r.is_ok() ==> verify_spec(
            *ps,
            public_key_of(*ps, secret_key@),
            message@,
            r.unwrap()@,
        ),
        r.is_ok() ==> salt_of_signature(*ps, r.unwrap()@) == salt@,
{
    if secret_key.len() != ps.sk_seed_bytes {
        return Err(CryptoError::InvalidKeyLength);
    }
    if salt.len() != ps.salt_bytes {
        return Err(CryptoError::ParameterError);
    }
    let key = expand_seed(ps, secret_key);
    let digest = shake256_digest(message, ps.digest_bytes);
    let t = derive_target(ps, digest.as_slice(), salt);
    let prefix = concat_bytes(digest.as_slice(), salt);
    let attempt_len = ps.attempt_bytes();
    let mut ctr: usize = 0;
    while ctr < ps.max_attempts
        invariant
            ctr <= ps.max_attempts,
            ps.wf(),
            key.wf(*ps),
            key@ == material_of(*ps, secret_key@),
            seed_of_public_key(*ps, key@.public_key) == seed_of_public_key(
                *ps,
                shake256(secret_key@, ps.spec_secret_bytes()),
            ),
            digest@ == shake256(message@, ps.digest_bytes as nat),
            t@ == target_of(*ps, digest@, salt@),
            t@.len() == ps.m,
            all_nibbles(t@),
            prefix@ == digest@ + salt@,
            attempt_len == ps.spec_attempt_bytes(),
            secret_key@.len() == ps.sk_seed_bytes,
            salt@.len() == ps.salt_bytes,
            sign_search(*ps, key@, t@, digest@, salt@, ctr as nat) == sign_search(
                *ps,
                key@,
                t@,
                digest@,
                salt@,
                0,
            ),
        decreases ps.max_attempts - ctr,
    {
        let counter: [u8; 1] = [ctr as u8];
        let input = concat_bytes(prefix.as_slice(), counter.as_slice());
        assert(input@ =~= counter_input(digest@, salt@, ctr as nat));
        let vb = shake256_digest(input.as_slice(), attempt_len);
        match attempt_signature(ps, &key, t.as_slice(), vb.as_slice(), salt) {
            Some(signature) => {
                proof {
                    lemma_accepted_signature_verifies(
                        *ps,
                        secret_key@,
                        message@,
                        salt@,
                        signature@,
                    );
                }
                return Ok(signature);
            },
            None => {},
        }
        ctr += 1;
    }
    Err(CryptoError::SigningError)
}

/// Whether `P` is a usable parameter set whose stated lengths agree with
/// its dimensions.
pub open spec fn usable<P: MayoParams>() -> bool {
    spec_params_of::<P>().wf() && sizes_agree::<P>()
}

/// A fresh key pair of the parameter set `P`: a secret seed from the
/// system's random number generator as the compact secret key, and the
/// compact public key that it expands to.
pub fn generate_keypair_generic<P: MayoParams>() -> (r: Result<(Vec<u8>, Vec<u8>), CryptoError>)
    ensures
        !usable::<P>() ==> r.is_err() && r.unwrap_err() == CryptoError::ParameterError,
        usable::<P>() && r.is_err() ==> r.unwrap_err() == CryptoError::KeyGenerationError,
        r.is_ok() ==> {
            let ps = spec_params_of::<P>();
            &&& r.unwrap().0@.len() == ps.sk_seed_bytes
            &&& r.unwrap().1@.len() == ps.spec_cpk_bytes()
            &&& r.unwrap().1@ == public_key_of(ps, r.unwrap().0@)
        },
{
    match checked_params::<P>() {
        Some(ps) => {
            match os_random_bytes(ps.sk_seed_bytes) {
                Some(seed) => keypair_from_seed(&ps, seed.as_slice()),
                None => Err(CryptoError::KeyGenerationError),
            }
        },
        None => Err(CryptoError::ParameterError),
    }
}

/// Signs `message` with the compact secret key `secret_key` under the
/// parameter set `P`, with a fresh salt from the system's random number
/// generator. Whatever the salt, a signature that is returned is the one
/// that signing with the salt at its end gives, and it verifies under the
/// public key of the secret key.
pub fn sign_generic<P: MayoParams>(secret_key: &[u8], message: &[u8]) -> (r: Result<
    Vec<u8>,
    CryptoError,
>)
    ensures
        !usable::<P>() ==> r.is_err() && r.unwrap_err() == CryptoError::ParameterError,
        usable::<P>() && secret_key@.len() != spec_params_of::<P>().sk_seed_bytes ==> r.is_err()
            && r.unwrap_err() == CryptoError::InvalidKeyLength,
        usable::<P>() && secret_key@.len() == spec_params_of::<P>().sk_seed_bytes && r.is_err()
            ==> r.unwrap_err() == CryptoError::SigningError,
        r.is_ok() ==> {
            let ps = spec_params_of::<P>();
            let sig = r.unwrap()@;
            &&& sig.len() == ps.spec_sig_bytes()
            &&& sign_spec(ps, secret_key@, message@, salt_of_signature(ps, sig)) == Ok::<
                Seq<u8>,
                CryptoError,
            >(sig)
            &&& verify_spec(ps, public_key_of(ps, secret_key@), message@, sig)
        },
{
    match checked_params::<P>() {
        Some(ps) => {
            if secret_key.len() != ps.sk_seed_bytes {
                return Err(CryptoError::InvalidKeyLength);
            }
            match os_random_bytes(ps.salt_bytes) {
                Some(salt) => sign_with_salt(&ps, secret_key, message, salt.as_slice()),
                None => Err(CryptoError::SigningError),
            }
        },
        None => Err(CryptoError::ParameterError),
    }
}

/// Signs as [`sign_generic`] does, but gives up after `max_attempts`
/// attempts, or after the bound of the parameter set if that is smaller.
pub fn sign_with_limited_attempts<P: MayoParams>(
    secret_key: &[u8],
    message: &[u8],
    max_attempts: usize,
) -> (r: Result<Vec<u8>, CryptoError>)
    ensures
        !usable::<P>() || max_attempts == 0 ==> r.is_err() && r.unwrap_err()
            == CryptoError::ParameterError,
        usable::<P>() && max_attempts > 0 && secret_key@.len()
            != spec_params_of::<P>().sk_seed_bytes ==> r.is_err() && r.unwrap_err()
            == CryptoError::InvalidKeyLength,
        usable::<P>() && max_attempts > 0 && secret_key@.len()
            == spec_params_of::<P>().sk_seed_bytes && r.is_err() ==> r.unwrap_err()
            == CryptoError::SigningError,
        r.is_ok() ==> {
            let ps = limited(spec_params_of::<P>(), max_attempts);
            let sig = r.unwrap()@;
            &&& sign_spec(ps, secret_key@, message@, salt_of_signature(ps, sig)) == Ok::<
                Seq<u8>,
                CryptoError,
            >(sig)
            &&& verify_spec(
                spec_params_of::<P>(),
                public_key_of(spec_params_of::<P>(), secret_key@),
                message@,
                sig,
            )
        },
{
    match checked_params::<P>() {
        Some(full) => {
            if max_attempts == 0 {
                return Err(CryptoError::ParameterError);
            }
            if secret_key.len() != full.sk_seed_bytes {
                return Err(CryptoError::InvalidKeyLength);
            }
            let bound = if max_attempts < full.max_attempts {
                max_attempts
            } else {
                full.max_attempts
            };
            let ps = ParamSet {
                m: full.m,
                n: full.n,
                o: full.o,
                k: full.k,
                salt_bytes: full.salt_bytes,
                digest_bytes: full.digest_bytes,
                sk_seed_bytes: full.sk_seed_bytes,
                pk_seed_bytes: full.pk_seed_bytes,
                f_tail: full.f_tail,
                max_attempts: bound,
            };
            match os_random_bytes(ps.salt_bytes) {
                Some(salt) => {
                    let r = sign_with_salt(&ps, secret_key, message, salt.as_slice());
                    proof {
                        if r.is_ok() {
                            lemma_bound_is_no_part_of_validity(
                                full,
                                max_attempts,
                                secret_key@,
                                message@,
                                r.unwrap()@,
                            );
                        }
                    }
                    r
                },
                None => Err(CryptoError::SigningError),
            }
        },
        None => Err(CryptoError::ParameterError),
    }
}

/// The parameter set `ps` with its attempt bound lowered to `max_attempts`.
pub open spec fn limited(ps: ParamSet, max_attempts: usize) -> ParamSet {
    ParamSet {
        max_attempts: if max_attempts < ps.max_attempts {
            max_attempts
        } else {
            ps.max_attempts
        },
        ..ps
    }
}

/// Keys and the validity of signatures do not depend on the attempt bound.
pub proof fn lemma_bound_is_no_part_of_validity(
    ps: ParamSet,
    max_attempts: usize,
    sk: Seq<u8>,
    msg: Seq<u8>,
    sig: Seq<u8>,
)
    ensures
        public_key_of(limited(ps, max_attempts), sk) == public_key_of(ps, sk),
        verify_spec(limited(ps, max_attempts), public_key_of(ps, sk), msg, sig) == verify_spec(
            ps,
            public_key_of(ps, sk),
            msg,
            sig,
        ),
{
    let lp = limited(ps, max_attempts);
    lemma_material_ignores_bound(ps, lp, sk);
    let pk = public_key_of(ps, sk);
    let stream = shake256(seed_of_public_key(ps, pk), ps.spec_expansion_bytes());
    assert(seed_of_public_key(lp, pk) == seed_of_public_key(ps, pk));
    assert(batches_p1(lp, stream) == batches_p1(ps, stream));
    assert(batches_p2(lp, stream) == batches_p2(ps, stream));
    assert(p3_of_public_key(lp, pk) == p3_of_public_key(ps, pk));
    assert(inputs_of_signature(lp, sig) == inputs_of_signature(ps, sig));
    assert(salt_of_signature(lp, sig) == salt_of_signature(ps, sig));
    let digest = shake256(msg, ps.digest_bytes as nat);
    assert(target_of(lp, digest, salt_of_signature(ps, sig)) == target_of(
        ps,
        digest,
        salt_of_signature(ps, sig),
    ));
    lemma_whipped_ignores_bound(
        ps,
        lp,
        PublicMap {
            p1: batches_p1(ps, stream),
            p2: batches_p2(ps, stream),
            p3: p3_of_public_key(ps, pk),
        },
        inputs_of_signature(ps, sig),
        0,
    );
}

/// Two parameter sets that differ in the attempt bound alone expand a
/// secret seed to the same material.
pub proof fn lemma_material_ignores_bound(ps: ParamSet, lp: ParamSet, sk: Seq<u8>)
    requires
        lp == (ParamSet { max_attempts: lp.max_attempts, ..ps }),
    ensures
        material_of(lp, sk) == material_of(ps, sk),
{
    let e = shake256(sk, ps.spec_secret_bytes());
    let stream = shake256(seed_of_public_key(ps, e), ps.spec_expansion_bytes());
    assert(oil_matrix(lp, e) == oil_matrix(ps, e));
    let om = oil_matrix(ps, e);
    let p1 = batches_p1(ps, stream);
    let p2 = batches_p2(ps, stream);
    assert(batches_p1(lp, stream) == p1);
    assert(batches_p2(lp, stream) == p2);
    assert(p1_times_o(lp, p1, om, false) =~= p1_times_o(ps, p1, om, false));
    assert(p1_times_o(lp, p1, om, true) =~= p1_times_o(ps, p1, om, true));
    assert(o_transpose_times(lp, om, keygen_l(ps, p1, p2, om)) =~= o_transpose_times(
        ps,
        om,
        keygen_l(ps, p1, p2, om),
    ));
}

/// Two parameter sets that differ in the attempt bound alone have the same whipped map.
pub proof fn lemma_whipped_ignores_bound(
    ps: ParamSet,
    lp: ParamSet,
    pm: PublicMap,
    s: Seq<Seq<u8>>,
    i_lo: int,
)
    requires
        lp == (ParamSet { max_attempts: lp.max_attempts, ..ps }),
    ensures
        crate::mayo_operations::whip_rows(lp, pm, s, i_lo) == crate::mayo_operations::whip_rows(
            ps,
            pm,
            s,
            i_lo,
        ),
    decreases ps.k - i_lo,
{
    if i_lo < ps.k {
        lemma_whipped_ignores_bound(ps, lp, pm, s, i_lo + 1);
        lemma_whip_row_ignores_bound(
            crate::mayo_operations::whip_rows(ps, pm, s, i_lo + 1),
            ps,
            lp,
            pm,
            s,
            i_lo,
            ps.k as int,
        );
    }
}

/// Two parameter sets that differ in the attempt bound alone fold a row of
/// pair terms alike.
pub proof fn lemma_whip_row_ignores_bound(
    acc: Seq<u8>,
    ps: ParamSet,
    lp: ParamSet,
    pm: PublicMap,
    s: Seq<Seq<u8>>,
    i: int,
    j_hi: int,
)
    requires
        lp == (ParamSet { max_attempts: lp.max_attempts, ..ps }),
    ensures
        crate::mayo_operations::whip_row(acc, lp, pm, s, i, j_hi)
            == crate::mayo_operations::whip_row(acc, ps, pm, s, i, j_hi),
    decreases j_hi - i,
{
    if j_hi > i {
        lemma_whip_row_ignores_bound(acc, ps, lp, pm, s, i, j_hi - 1);
    }
}

/// Whether `signature` is a valid signature of `message` under the compact
/// public key `public_key` and the parameter set `P`. A key or signature of
/// the wrong length is not valid; only an unusable parameter set is an error.
pub fn verify_generic<P: MayoParams>(public_key: &[u8], message: &[u8], signature: &[u8]) -> (r:
    Result<bool, CryptoError>)
    ensures
        r.is_ok() <==> usable::<P>(),
        r.is_err() ==> r.unwrap_err() == CryptoError::ParameterError,
        r.is_ok() ==> r.unwrap() == verify_spec(
            spec_params_of::<P>(),
            public_key@,
            message@,
            signature@,
        ),
{
    match checked_params::<P>() {
        Some(ps) => Ok(verify_with(&ps, public_key, message, signature)),
        None => Err(CryptoError::ParameterError),
    }
}

/// A fresh key pair of MAYO-1.
pub fn generate_keypair() -> (r: Result<(Vec<u8>, Vec<u8>), CryptoError>)
    ensures
        r.is_err() ==> r.unwrap_err() == CryptoError::KeyGenerationError,
        r.is_ok() ==> {
            let ps = spec_params_of::<Mayo1>();
            &&& r.unwrap().0@.len() == ps.sk_seed_bytes
            &&& r.unwrap().1@.len() == ps.spec_cpk_bytes()
            &&& r.unwrap().1@ == public_key_of(ps, r.unwrap().0@)
        },
{
    proof {
        lemma_named_sets_valid();
    }
    generate_keypair_generic::<Mayo1>()
}

/// Signs `message` with a compact secret key of MAYO-1.
pub fn sign(secret_key: &[u8], message: &[u8]) -> (r: Result<Vec<u8>, CryptoError>)
    ensures
        secret_key@.len() != spec_params_of::<Mayo1>().sk_seed_bytes ==> r.is_err()
            && r.unwrap_err() == CryptoError::InvalidKeyLength,
        secret_key@.len() == spec_params_of::<Mayo1>().sk_seed_bytes && r.is_err()
            ==> r.unwrap_err() == CryptoError::SigningError,
        r.is_ok() ==> {
            let ps = spec_params_of::<Mayo1>();
            let sig = r.unwrap()@;
            &&& sig.len() == ps.spec_sig_bytes()
            &&& sign_spec(ps, secret_key@, message@, salt_of_signature(ps, sig)) == Ok::<
                Seq<u8>,
                CryptoError,
            >(sig)
            &&& verify_spec(ps, public_key_of(ps, secret_key@), message@, sig)
        },
{
    proof {
        lemma_named_sets_valid();
    }
    sign_generic::<Mayo1>(secret_key, message)
}

/// Whether `signature` is a valid signature of `message` under a compact
/// public key of MAYO-1.
pub fn verify(public_key: &[u8], message: &[u8], signature: &[u8]) -> (r: Result<bool, CryptoError>)
    ensures
        r.is_ok(),
        r.unwrap() == verify_spec(spec_params_of::<Mayo1>(), public_key@, message@, signature@),
{
    proof {
        lemma_named_sets_valid();
    }
    verify_generic::<Mayo1>(public_key, message, signature)
}

/// The low nibbles of every row.
pub open spec fn masked_rows(s: Seq<Vec<u8>>) -> Seq<Seq<u8>> {
    Seq::new(s.len(), |i: int| low_nibbles(s[i]@))
}

/// Whether `s` holds `k` rows of `n` entries and the three coefficient
/// sequences have one batch of `m` entries for every position.
pub open spec fn evaluation_defined(
    ps: ParamSet,
    s: Seq<Vec<u8>>,
    p1: Seq<F16>,
    p2: Seq<F16>,
    p3: Seq<F16>,
) -> bool {
    &&& s.len() == ps.k
    &&& forall|i: int| 0 <= i < s.len() ==> (#[trigger] s[i])@.len() == ps.n
    &&& p1.len() == ps.m * ps.spec_p1_count()
    &&& p2.len() == ps.m * ps.spec_p2_count()
    &&& p3.len() == ps.m * ps.spec_p3_count()
}

/// The whipped map of the parameter set `P` with the coefficient sequences
/// `p1`, `p2` and `p3`, each batch after batch, at the `k` inputs that the
/// rows of `s_matrix` hold. An error when the parameter set is unusable or
/// a length does not fit it.
pub fn compute_mayo_polynomial<P: MayoParams>(
    s_matrix: &[Vec<u8>],
    p1: &[F16],
    p2: &[F16],
    p3: &[F16],
) -> (r: Result<Vec<F16>, CryptoError>)
    ensures
        r.is_ok() <==> usable::<P>() && evaluation_defined(
            spec_params_of::<P>(),
            s_matrix@,
            p1@,
            p2@,
            p3@,
        ),
        r.is_err() ==> r.unwrap_err() == CryptoError::ParameterError,
        r.is_ok() ==> {
            let ps = spec_params_of::<P>();
            values(r.unwrap()@) == whipped_map(
                ps,
                PublicMap {
                    p1: unflatten(values(p1@), ps.spec_p1_count(), ps.m as nat),
                    p2: unflatten(values(p2@), ps.spec_p2_count(), ps.m as nat),
                    p3: unflatten(values(p3@), ps.spec_p3_count(), ps.m as nat),
                },
                masked_rows(s_matrix@),
            )
        },
        r.is_ok() ==> r.unwrap()@.len() == spec_params_of::<P>().m,
{
    match checked_params::<P>() {
        Some(ps) => {
            let n1 = ps.batch_elements(ps.p1_count());
            let n2 = ps.batch_elements(ps.p2_count());
            let n3 = ps.batch_elements(ps.p3_count());
            if s_matrix.len() != ps.k || p1.len() != n1 || p2.len() != n2 || p3.len() != n3 {
                return Err(CryptoError::ParameterError);
            }
            let mut inputs: Vec<Vector> = Vec::with_capacity(ps.k);
            let mut i: usize = 0;
            while i < ps.k
                invariant
                    i <= ps.k,
                    ps.wf(),
                    ps == spec_params_of::<P>(),
                    s_matrix@.len() == ps.k,
                    inputs@.len() == i,
                    forall|t: int| 0 <= t < i ==> (#[trigger] s_matrix@[t])@.len() == ps.n,
                    forall|t: int| 0 <= t < i ==> (#[trigger] inputs@[t])@ == low_nibbles(s_matrix@[t]@),
                decreases ps.k - i,
            {
                if s_matrix[i].len() != ps.n {
                    assert(s_matrix@[i as int]@.len() != ps.n);
                    return Err(CryptoError::ParameterError);
                }
                inputs.push(Vector::from_values(s_matrix[i].as_slice()));
                i += 1;
            }
            assert(vector_views(inputs@) =~= masked_rows(s_matrix@));
            proof {
                assert(ps.spec_p1_count() * ps.m == ps.m * ps.spec_p1_count()) by (nonlinear_arith);
                assert(ps.spec_p2_count() * ps.m == ps.m * ps.spec_p2_count()) by (nonlinear_arith);
                assert(ps.spec_p3_count() * ps.m == ps.m * ps.spec_p3_count()) by (nonlinear_arith);
            }
            let b1 = batches_from_flat(p1, ps.p1_count(), ps.m);
            let b2 = batches_from_flat(p2, ps.p2_count(), ps.m);
            let b3 = batches_from_flat(p3, ps.p3_count(), ps.m);
            let evaluation = eval_mayo_polynomial(
                &ps,
                inputs.as_slice(),
                b1.as_slice(),
                b2.as_slice(),
                b3.as_slice(),
            );
            assert(values(evaluation.elements@).len() == evaluation.elements@.len());
            Ok(evaluation.elements)
        },
        None => Err(CryptoError::ParameterError),
    }
}

/// The whipped map at the rows of `s_matrix`; another name for
/// [`compute_mayo_polynomial`].
pub fn compute_sps<P: MayoParams>(s_matrix: &[Vec<u8>], p1: &[F16], p2: &[F16], p3: &[F16]) -> (r:
    Result<Vec<F16>, CryptoError>)
    ensures
        r.is_ok() <==> usable::<P>() && evaluation_defined(
            spec_params_of::<P>(),
            s_matrix@,
            p1@,
            p2@,
            p3@,
        ),
        r.is_err() ==> r.unwrap_err() == CryptoError::ParameterError,
        r.is_ok() ==> {
            let ps = spec_params_of::<P>();
            values(r.unwrap()@) == whipped_map(
                ps,
                PublicMap {
                    p1: unflatten(values(p1@), ps.spec_p1_count(), ps.m as nat),
                    p2: unflatten(values(p2@), ps.spec_p2_count(), ps.m as nat),
                    p3: unflatten(values(p3@), ps.spec_p3_count(), ps.m as nat),
                },
                masked_rows(s_matrix@),
            )
        },
        r.is_ok() ==> r.unwrap()@.len() == spec_params_of::<P>().m,
{
    compute_mayo_polynomial::<P>(s_matrix, p1, p2, p3)
}

/// A self-test of the parameter set `P`: a key pair is generated, a short
/// message is signed within sixteen attempts, and the signature is
/// verified. Signing that finds no signature within the bound is no
/// failure. A signature that was made always verifies, so the error is
/// never `VerificationError`.
pub fn test_basic_crypto_operations<P: MayoParams>() -> (r: Result<(), CryptoError>)
    ensures
        !usable::<P>() ==> r.is_err() && r.unwrap_err() == CryptoError::ParameterError,
        usable::<P>() && r.is_err() ==> r.unwrap_err() == CryptoError::KeyGenerationError,
{
    match generate_keypair_generic::<P>() {
        Ok(pair) => {
            let message: [u8; 12] = [116, 101, 115, 116, 32, 109, 101, 115, 115, 97, 103, 101];
            match sign_with_limited_attempts::<P>(pair.0.as_slice(), message.as_slice(), 16) {
                Ok(signature) => {
                    match verify_generic::<P>(
                        pair.1.as_slice(),
                        message.as_slice(),
                        signature.as_slice(),
                    ) {
                        Ok(valid) => {
                            if valid {
                                Ok(())
                            } else {
                                Err(CryptoError::VerificationError)
                            }
                        },
                        Err(e) => Err(e),
                    }
                },
                Err(_) => Ok(()),
            }
        },
        Err(e) => Err(e),
    }
}

} // verus!
