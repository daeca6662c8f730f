//! The parameter sets: one immutable configuration value for each security level.

use vstd::prelude::*;

verus! {

/// The largest dimension, seed length or salt length that a parameter set may
/// name. It keeps every count in this library inside a 32-bit `usize`.
pub const MAX_DIMENSION: usize = 1024;

/// The number of signing attempts after which signing gives up.
pub const MAX_SIGN_ATTEMPTS: usize = 256;

/// The constants of one parameter set, as the scheme's functions take them.
#[derive(Debug, Clone, Copy, PartialEq, Eq)]
pub struct ParamSet {
    /// The number of public equations.
    pub m: usize,
    /// The number of variables.
    pub n: usize,
    /// The number of oil variables.
    pub o: usize,
    /// The number of vinegar vectors that one signature whips together.
    pub k: usize,
    /// The length of the salt in bytes.
    pub salt_bytes: usize,
    /// The length of the message digest in bytes.
    pub digest_bytes: usize,
    /// The length of the secret seed in bytes.
    pub sk_seed_bytes: usize,
    /// The length of the public seed in bytes.
    pub pk_seed_bytes: usize,
    /// The four low coefficients of the tail polynomial for `m`.
    pub f_tail: [u8; 4],
    /// The number of signing attempts after which signing gives up.
    pub max_attempts: usize,
}

/// The number of positions on and above the diagonal of a square matrix of size `n`.
pub open spec fn triangle(n: nat) -> nat {
    n * (n + 1) / 2
}

/// The number of bytes that `n` nibbles need.
pub open spec fn half_up(n: nat) -> nat {
    (n + 1) / 2
}

impl ParamSet {
    /// Whether the constants describe a usable scheme: at least one oil and
    /// one vinegar variable, at least one vinegar vector, equations no fewer
    /// than the tail polynomial has coefficients, an attempt counter that
    /// fits one byte, and nothing above `MAX_DIMENSION`.
    pub open spec fn wf(&self) -> bool {
        &&& 4 <= self.m <= MAX_DIMENSION
        &&& 0 < self.o < self.n <= MAX_DIMENSION
        &&& 0 < self.k <= MAX_DIMENSION
        &&& self.salt_bytes <= MAX_DIMENSION
        &&& 0 < self.digest_bytes <= MAX_DIMENSION
        &&& 0 < self.sk_seed_bytes <= MAX_DIMENSION
        &&& 0 < self.pk_seed_bytes <= MAX_DIMENSION
        &&& 0 < self.max_attempts <= MAX_SIGN_ATTEMPTS
    }

    /// The number of vinegar variables, `n - o`.
    pub open spec fn spec_v(&self) -> nat {
        (self.n - self.o) as nat
    }

    /// The number of coefficient batches of `P1`: the upper triangle of a `v` by `v` matrix.
    pub open spec fn spec_p1_count(&self) -> nat {
        triangle(self.spec_v())
    }

    /// The number of coefficient batches of `P2`: a `v` by `o` matrix.
    pub open spec fn spec_p2_count(&self) -> nat {
        self.spec_v() * self.o as nat
    }

    /// The number of coefficient batches of `P3`: the upper triangle of an `o` by `o` matrix.
    pub open spec fn spec_p3_count(&self) -> nat {
        triangle(self.o as nat)
    }

    /// The length in bytes of the packed oil matrix.
    pub open spec fn spec_o_bytes(&self) -> nat {
        half_up(self.spec_v() * self.o as nat)
    }

    /// The length in bytes of the packed `P3`.
    pub open spec fn spec_p3_bytes(&self) -> nat {
        half_up(self.m as nat * self.spec_p3_count())
    }

    /// The length in bytes of the compact public key: the public seed and the packed `P3`.
    pub open spec fn spec_cpk_bytes(&self) -> nat {
        self.pk_seed_bytes as nat + self.spec_p3_bytes()
    }

    /// The length in bytes of the packed solution vector of `k * n` entries.
    pub open spec fn spec_solution_bytes(&self) -> nat {
        half_up(self.k as nat * self.n as nat)
    }

    /// The length in bytes of a signature: the packed solution and the salt.
    pub open spec fn spec_sig_bytes(&self) -> nat {
        self.spec_solution_bytes() + self.salt_bytes as nat
    }

    /// The length in bytes of one packed vinegar vector.
    pub open spec fn spec_v_bytes(&self) -> nat {
        half_up(self.spec_v())
    }

    /// The length in bytes of the packed values for the `k * o` oil variables.
    pub open spec fn spec_r_bytes(&self) -> nat {
        half_up(self.k as nat * self.o as nat)
    }

    /// The number of field elements of the three coefficient sequences together.
    pub open spec fn spec_total_elements(&self) -> nat {
        self.m as nat * (self.spec_p1_count() + self.spec_p2_count() + self.spec_p3_count())
    }

    /// The number of bytes that the expansion of a public seed yields.
    pub open spec fn spec_expansion_bytes(&self) -> nat {
        half_up(self.spec_total_elements())
    }

    /// The number of bytes that the expansion of a secret seed yields: the
    /// public seed and the packed oil matrix.
    pub open spec fn spec_secret_bytes(&self) -> nat {
        self.pk_seed_bytes as nat + self.spec_o_bytes()
    }

    /// The number of bytes that one signing attempt draws: `k` packed vinegar
    /// vectors and the packed values for the oil variables.
    pub open spec fn spec_attempt_bytes(&self) -> nat {
        self.k as nat * self.spec_v_bytes() + self.spec_r_bytes()
    }

    /// Whether the constants describe a usable scheme.
    pub fn is_valid(&self) -> (b: bool)
        ensures
            b == self.wf(),
    {
        4 <= self.m && self.m <= MAX_DIMENSION && 0 < self.o && self.o < self.n && self.n
            <= MAX_DIMENSION && 0 < self.k && self.k <= MAX_DIMENSION && self.salt_bytes
            <= MAX_DIMENSION && 0 < self.digest_bytes && self.digest_bytes <= MAX_DIMENSION && 0
            < self.sk_seed_bytes && self.sk_seed_bytes <= MAX_DIMENSION && 0 < self.pk_seed_bytes
            && self.pk_seed_bytes <= MAX_DIMENSION && 0 < self.max_attempts && self.max_attempts
            <= MAX_SIGN_ATTEMPTS
    }

    /// The number of vinegar variables.
    pub fn v(&self) -> (r: usize)
        requires
            self.wf(),
        ensures
            r == self.spec_v(),
            0 < r < MAX_DIMENSION,
    {
        self.n - self.o
    }

    /// The number of coefficient batches of `P1`.
    pub fn p1_count(&self) -> (r: usize)
        requires
            self.wf(),
        ensures
            r == self.spec_p1_count(),
            r <= 524800,
    {
        let v = self.n - self.o;
        tri_count(v)
    }

    /// The number of coefficient batches of `P2`.
    pub fn p2_count(&self) -> (r: usize)
        requires
            self.wf(),
        ensures
            r == self.spec_p2_count(),
            r <= 1048576,
    {
        let v = self.n - self.o;
        bounded_product(v, self.o)
    }

    /// The number of coefficient batches of `P3`.
    pub fn p3_count(&self) -> (r: usize)
        requires
            self.wf(),
        ensures
            r == self.spec_p3_count(),
            r <= 524800,
    {
        tri_count(self.o)
    }

    /// The length in bytes of the packed oil matrix.
    pub fn o_bytes(&self) -> (r: usize)
        requires
            self.wf(),
        ensures
            r == self.spec_o_bytes(),
            r <= 524288,
    {
        (self.p2_count() + 1) / 2
    }

    /// The length in bytes of the compact public key.
    pub fn cpk_bytes(&self) -> (r: usize)
        requires
            self.wf(),
        ensures
            r == self.spec_cpk_bytes(),
            r <= 268698624,
    {
        let count = self.p3_count();
        assert(self.m * count <= 1024 * 524800) by (nonlinear_arith)
            requires
                self.m <= 1024,
                count <= 524800,
        ;
        self.pk_seed_bytes + (self.m * count + 1) / 2
    }

    /// The length in bytes of the packed solution vector.
    pub fn solution_bytes(&self) -> (r: usize)
        requires
            self.wf(),
        ensures
            r == self.spec_solution_bytes(),
            r <= 524288,
    {
        (bounded_product(self.k, self.n) + 1) / 2
    }

    /// The length in bytes of a signature.
    pub fn sig_bytes(&self) -> (r: usize)
        requires
            self.wf(),
        ensures
            r == self.spec_sig_bytes(),
            r <= 525312,
    {
        self.solution_bytes() + self.salt_bytes
    }

    /// The length in bytes of one packed vinegar vector.
    pub fn v_bytes(&self) -> (r: usize)
        requires
            self.wf(),
        ensures
            r == self.spec_v_bytes(),
            r <= 512,
    {
        (self.n - self.o + 1) / 2
    }

    /// The length in bytes of the packed values for the oil variables.
    pub fn r_bytes(&self) -> (r: usize)
        requires
            self.wf(),
        ensures
            r == self.spec_r_bytes(),
            r <= 524288,
    {
        (bounded_product(self.k, self.o) + 1) / 2
    }
}

impl ParamSet {
    /// The number of field elements of `count` batches.
    pub fn batch_elements(&self, count: usize) -> (r: usize)
        requires
            self.wf(),
            count <= 1048576,
        ensures
            r == self.m * count,
            r <= 1073741824,
    {
        assert(self.m * count <= 1024 * 1048576) by (nonlinear_arith)
            requires
                self.m <= 1024,
                count <= 1048576,
        ;
        self.m * count
    }

    /// The number of field elements of the three coefficient sequences together.
    pub fn total_elements(&self) -> (r: usize)
        requires
            self.wf(),
        ensures
            r == self.spec_total_elements(),
            r == self.m * self.spec_p1_count() + self.m * self.spec_p2_count() + self.m
                * self.spec_p3_count(),
            r <= 3221225472,
    {
        let a = self.batch_elements(self.p1_count());
        let b = self.batch_elements(self.p2_count());
        let c = self.batch_elements(self.p3_count());
        assert(self.m * (self.spec_p1_count() + self.spec_p2_count() + self.spec_p3_count())
            == self.m * self.spec_p1_count() + self.m * self.spec_p2_count() + self.m
            * self.spec_p3_count()) by (nonlinear_arith);
        a + b + c
    }

    /// The number of bytes that the expansion of a public seed yields.
    pub fn expansion_bytes(&self) -> (r: usize)
        requires
            self.wf(),
        ensures
            r == self.spec_expansion_bytes(),
    {
        let total = self.total_elements();
        total / 2 + total % 2
    }

    /// The number of bytes that the expansion of a secret seed yields.
    pub fn secret_bytes(&self) -> (r: usize)
        requires
            self.wf(),
        ensures
            r == self.spec_secret_bytes(),
            r <= 525312,
    {
        self.pk_seed_bytes + self.o_bytes()
    }

    /// The number of bytes that one signing attempt draws.
    pub fn attempt_bytes(&self) -> (r: usize)
        requires
            self.wf(),
        ensures
            r == self.spec_attempt_bytes(),
            r <= 1048576,
    {
        let vb = self.v_bytes();
        assert(self.k * vb <= 1024 * 512) by (nonlinear_arith)
            requires
                self.k <= 1024,
                vb <= 512,
        ;
        self.k * vb + self.r_bytes()
    }
}

/// The product of two dimensions.
pub fn bounded_product(a: usize, b: usize) -> (r: usize)
    requires
        a <= MAX_DIMENSION,
        b <= MAX_DIMENSION,
    ensures
        r == a * b,
        r <= 1048576,
{
    assert(a * b <= 1024 * 1024) by (nonlinear_arith)
        requires
            a <= 1024,
            b <= 1024,
    ;
    a * b
}

/// The number of positions on and above the diagonal of a square matrix of size `n`.
pub fn tri_count(n: usize) -> (r: usize)
    requires
        n <= MAX_DIMENSION,
    ensures
        r == triangle(n as nat),
        r <= 524800,
{
    assert(n * (n + 1) <= 1024 * 1025) by (nonlinear_arith)
        requires
            n <= 1024,
    ;
    n * (n + 1) / 2
}

/// A named parameter set, as constants of a type.
pub trait MayoParams {
    const M_PARAM: usize;
    const N_PARAM: usize;
    const O_PARAM: usize;
    const K_PARAM: usize;
    const KO_PARAM: usize;
    const P1_ELEMS_PER_MATRIX: usize;
    const P2_ELEMS_PER_MATRIX: usize;
    const P3_ELEMS_PER_MATRIX: usize;
    const SALT_BYTES: usize;
    const DIGEST_BYTES: usize;
    const SK_SEED_BYTES: usize;
    const PK_SEED_BYTES: usize;
    const O_BYTES: usize;
    const P1_BYTES: usize;
    const P2_BYTES: usize;
    const P3_BYTES: usize;
    const CSK_BYTES: usize;
    const CPK_BYTES: usize;
    const SIG_BYTES: usize;
    const R_BYTES: usize;
    const V_BYTES: usize;
    const O_ELTS: usize;
    const L_BYTES: usize;
    const ESK_BYTES: usize;
    const EPK_BYTES: usize;
    const P1_MAT_ROWS: usize;
    const P1_MAT_COLS: usize;
    const P1_IS_TRIANGULAR: bool;
    const P2_MAT_ROWS: usize;
    const P2_MAT_COLS: usize;
    const P2_IS_TRIANGULAR: bool;
    const P3_MAT_ROWS: usize;
    const P3_MAT_COLS: usize;
    const P3_IS_TRIANGULAR: bool;
    const L_MAT_ROWS: usize;
    const L_MAT_COLS: usize;
    const L_IS_TRIANGULAR: bool;
    const F_TAIL: [u8; 4];

    /// The name of the parameter set.
    fn name() -> &'static str;

    /// The security level that the parameter set aims at.
    fn security_level() -> usize;
}

/// The configuration value of the parameter set `P`.
pub open spec fn spec_params_of<P: MayoParams>() -> ParamSet {
    ParamSet {
        m: P::M_PARAM,
        n: P::N_PARAM,
        o: P::O_PARAM,
        k: P::K_PARAM,
        salt_bytes: P::SALT_BYTES,
        digest_bytes: P::DIGEST_BYTES,
        sk_seed_bytes: P::SK_SEED_BYTES,
        pk_seed_bytes: P::PK_SEED_BYTES,
        f_tail: P::F_TAIL,
        max_attempts: MAX_SIGN_ATTEMPTS,
    }
}

/// Whether the key and signature lengths that `P` states are the ones that
/// follow from its dimensions.
pub open spec fn sizes_agree<P: MayoParams>() -> bool {
    let p = spec_params_of::<P>();
    &&& P::CSK_BYTES == p.sk_seed_bytes
    &&& P::CPK_BYTES == p.spec_cpk_bytes()
    &&& P::SIG_BYTES == p.spec_sig_bytes()
    &&& P::O_BYTES == p.spec_o_bytes()
}

/// The configuration value of the parameter set `P`.
pub fn params_of<P: MayoParams>() -> (p: ParamSet)
    ensures
        p == spec_params_of::<P>(),
{
    ParamSet {
        m: P::M_PARAM,
        n: P::N_PARAM,
        o: P::O_PARAM,
        k: P::K_PARAM,
        salt_bytes: P::SALT_BYTES,
        digest_bytes: P::DIGEST_BYTES,
        sk_seed_bytes: P::SK_SEED_BYTES,
        pk_seed_bytes: P::PK_SEED_BYTES,
        f_tail: P::F_TAIL,
        max_attempts: MAX_SIGN_ATTEMPTS,
    }
}

/// The configuration value of `P`, if its dimensions are usable and the
/// lengths it states agree with them.
pub fn checked_params<P: MayoParams>() -> (r: Option<ParamSet>)
    ensures
        r.is_some() <==> spec_params_of::<P>().wf() && sizes_agree::<P>(),
        r.is_some() ==> r.unwrap() == spec_params_of::<P>(),
{
    let p = params_of::<P>();
    if !p.is_valid() {
        return None;
    }
    if P::CSK_BYTES == p.sk_seed_bytes && P::CPK_BYTES == p.cpk_bytes() && P::SIG_BYTES
        == p.sig_bytes() && P::O_BYTES == p.o_bytes() {
        Some(p)
    } else {
        None
    }
}

/// MAYO-1.
pub struct Mayo1;

impl MayoParams for Mayo1 {
    const M_PARAM: usize = 78;
    const N_PARAM: usize = 86;
    const O_PARAM: usize = 8;
    const K_PARAM: usize = 10;
    const KO_PARAM: usize = 80;
    const P1_ELEMS_PER_MATRIX: usize = 3081;
    const P2_ELEMS_PER_MATRIX: usize = 624;
    const P3_ELEMS_PER_MATRIX: usize = 36;
    const SALT_BYTES: usize = 24;
    const DIGEST_BYTES: usize = 32;
    const SK_SEED_BYTES: usize = 24;
    const PK_SEED_BYTES: usize = 16;
    const O_BYTES: usize = 312;
    const P1_BYTES: usize = 120159;
    const P2_BYTES: usize = 24336;
    const P3_BYTES: usize = 1404;
    const CSK_BYTES: usize = 24;
    const CPK_BYTES: usize = 1420;
    const SIG_BYTES: usize = 454;
    const R_BYTES: usize = 40;
    const V_BYTES: usize = 39;
    const O_ELTS: usize = 624;
    const L_BYTES: usize = 24336;
    const ESK_BYTES: usize = 144831;
    const EPK_BYTES: usize = 145899;
    const P1_MAT_ROWS: usize = 78;
    const P1_MAT_COLS: usize = 78;
    const P1_IS_TRIANGULAR: bool = true;
    const P2_MAT_ROWS: usize = 78;
    const P2_MAT_COLS: usize = 8;
    const P2_IS_TRIANGULAR: bool = false;
    const P3_MAT_ROWS: usize = 8;
    const P3_MAT_COLS: usize = 8;
    const P3_IS_TRIANGULAR: bool = true;
    const L_MAT_ROWS: usize = 78;
    const L_MAT_COLS: usize = 8;
    const L_IS_TRIANGULAR: bool = false;
    const F_TAIL: [u8; 4] = [8, 1, 1, 0];

    fn name() -> (r: &'static str)
        ensures
            r@ == "MAYO-1"@,
    {
        "MAYO-1"
    }

    fn security_level() -> (r: usize)
        ensures
            r == 1,
    {
        1
    }
}

/// MAYO-2.
pub struct Mayo2;

impl MayoParams for Mayo2 {
    const M_PARAM: usize = 64;
    const N_PARAM: usize = 78;
    const O_PARAM: usize = 18;
    const K_PARAM: usize = 4;
    const KO_PARAM: usize = 72;
    const P1_ELEMS_PER_MATRIX: usize = 1830;
    const P2_ELEMS_PER_MATRIX: usize = 1080;
    const P3_ELEMS_PER_MATRIX: usize = 171;
    const SALT_BYTES: usize = 32;
    const DIGEST_BYTES: usize = 32;
    const SK_SEED_BYTES: usize = 24;
    const PK_SEED_BYTES: usize = 16;
    const O_BYTES: usize = 540;
    const P1_BYTES: usize = 58560;
    const P2_BYTES: usize = 34560;
    const P3_BYTES: usize = 5472;
    const CSK_BYTES: usize = 24;
    const CPK_BYTES: usize = 5488;
    const SIG_BYTES: usize = 188;
    const R_BYTES: usize = 36;
    const V_BYTES: usize = 30;
    const O_ELTS: usize = 1080;
    const L_BYTES: usize = 34560;
    const ESK_BYTES: usize = 93684;
    const EPK_BYTES: usize = 98592;
    const P1_MAT_ROWS: usize = 60;
    const P1_MAT_COLS: usize = 60;
    const P1_IS_TRIANGULAR: bool = true;
    const P2_MAT_ROWS: usize = 60;
    const P2_MAT_COLS: usize = 18;
    const P2_IS_TRIANGULAR: bool = false;
    const P3_MAT_ROWS: usize = 18;
    const P3_MAT_COLS: usize = 18;
    const P3_IS_TRIANGULAR: bool = true;
    const L_MAT_ROWS: usize = 60;
    const L_MAT_COLS: usize = 18;
    const L_IS_TRIANGULAR: bool = false;
    const F_TAIL: [u8; 4] = [8, 0, 2, 8];

    fn name() -> (r: &'static str)
        ensures
            r@ == "MAYO-2"@,
    {
        "MAYO-2"
    }

    fn security_level() -> (r: usize)
        ensures
            r == 2,
    {
        2
    }
}

/// MAYO-3.
pub struct Mayo3;

impl MayoParams for Mayo3 {
    const M_PARAM: usize = 96;
    const N_PARAM: usize = 99;
    const O_PARAM: usize = 10;
    const K_PARAM: usize = 11;
    const KO_PARAM: usize = 110;
    const P1_ELEMS_PER_MATRIX: usize = 4005;
    const P2_ELEMS_PER_MATRIX: usize = 890;
    const P3_ELEMS_PER_MATRIX: usize = 55;
    const SALT_BYTES: usize = 32;
    const DIGEST_BYTES: usize = 32;
    const SK_SEED_BYTES: usize = 32;
    const PK_SEED_BYTES: usize = 16;
    const O_BYTES: usize = 445;
    const P1_BYTES: usize = 192240;
    const P2_BYTES: usize = 42720;
    const P3_BYTES: usize = 2640;
    const CSK_BYTES: usize = 32;
    const CPK_BYTES: usize = 2656;
    const SIG_BYTES: usize = 577;
    const R_BYTES: usize = 55;
    const V_BYTES: usize = 45;
    const O_ELTS: usize = 890;
    const L_BYTES: usize = 42720;
    const ESK_BYTES: usize = 235437;
    const EPK_BYTES: usize = 237600;
    const P1_MAT_ROWS: usize = 89;
    const P1_MAT_COLS: usize = 89;
    const P1_IS_TRIANGULAR: bool = true;
    const P2_MAT_ROWS: usize = 89;
    const P2_MAT_COLS: usize = 10;
    const P2_IS_TRIANGULAR: bool = false;
    const P3_MAT_ROWS: usize = 10;
    const P3_MAT_COLS: usize = 10;
    const P3_IS_TRIANGULAR: bool = true;
    const L_MAT_ROWS: usize = 89;
    const L_MAT_COLS: usize = 10;
    const L_IS_TRIANGULAR: bool = false;
    const F_TAIL: [u8; 4] = [2, 2, 0, 2];

    fn name() -> (r: &'static str)
        ensures
            r@ == "MAYO-3"@,
    {
        "MAYO-3"
    }

    fn security_level() -> (r: usize)
        ensures
            r == 3,
    {
        3
    }
}

/// MAYO-5.
pub struct Mayo5;

impl MayoParams for Mayo5 {
    const M_PARAM: usize = 128;
    const N_PARAM: usize = 133;
    const O_PARAM: usize = 12;
    const K_PARAM: usize = 12;
    const KO_PARAM: usize = 144;
    const P1_ELEMS_PER_MATRIX: usize = 7381;
    const P2_ELEMS_PER_MATRIX: usize = 1452;
    const P3_ELEMS_PER_MATRIX: usize = 78;
    const SALT_BYTES: usize = 32;
    const DIGEST_BYTES: usize = 32;
    const SK_SEED_BYTES: usize = 40;
    const PK_SEED_BYTES: usize = 16;
    const O_BYTES: usize = 726;
    const P1_BYTES: usize = 472384;
    const P2_BYTES: usize = 92928;
    const P3_BYTES: usize = 4992;
    const CSK_BYTES: usize = 40;
    const CPK_BYTES: usize = 5008;
    const SIG_BYTES: usize = 830;
    const R_BYTES: usize = 72;
    const V_BYTES: usize = 61;
    const O_ELTS: usize = 1452;
    const L_BYTES: usize = 92928;
    const ESK_BYTES: usize = 566078;
    const EPK_BYTES: usize = 570304;
    const P1_MAT_ROWS: usize = 121;
    const P1_MAT_COLS: usize = 121;
    const P1_IS_TRIANGULAR: bool = true;
    const P2_MAT_ROWS: usize = 121;
    const P2_MAT_COLS: usize = 12;
    const P2_IS_TRIANGULAR: bool = false;
    const P3_MAT_ROWS: usize = 12;
    const P3_MAT_COLS: usize = 12;
    const P3_IS_TRIANGULAR: bool = true;
    const L_MAT_ROWS: usize = 121;
    const L_MAT_COLS: usize = 12;
    const L_IS_TRIANGULAR: bool = false;
    const F_TAIL: [u8; 4] = [4, 8, 0, 4];

    fn name() -> (r: &'static str)
        ensures
            r@ == "MAYO-5"@,
    {
        "MAYO-5"
    }

    fn security_level() -> (r: usize)
        ensures
            r == 5,
    {
        5
    }
}

/// The four named parameter sets are usable, and the lengths they state agree
/// with their dimensions.
pub proof fn lemma_named_sets_valid()
    ensures
        spec_params_of::<Mayo1>().wf() && sizes_agree::<Mayo1>(),
        spec_params_of::<Mayo2>().wf() && sizes_agree::<Mayo2>(),
        spec_params_of::<Mayo3>().wf() && sizes_agree::<Mayo3>(),
        spec_params_of::<Mayo5>().wf() && sizes_agree::<Mayo5>(),
{
}

/// The number of public equations of the default parameter set, MAYO-1.
pub const M_PARAM: usize = 78;

/// The number of variables of the default parameter set.
pub const N_PARAM: usize = 86;

/// The number of oil variables of the default parameter set.
pub const O_PARAM: usize = 8;

/// The number of vinegar vectors of the default parameter set.
pub const K_PARAM: usize = 10;

/// The rows of one `P1` matrix of the default parameter set.
pub const P1_MAT_ROWS: usize = 78;

/// The columns of one `P1` matrix of the default parameter set.
pub const P1_MAT_COLS: usize = 78;

/// Whether `P1` is kept as its upper triangle.
pub const P1_IS_TRIANGULAR: bool = true;

/// The rows of one `P2` matrix of the default parameter set.
pub const P2_MAT_ROWS: usize = 78;

/// The columns of one `P2` matrix of the default parameter set.
pub const P2_MAT_COLS: usize = 8;

/// Whether `P2` is kept as its upper triangle.
pub const P2_IS_TRIANGULAR: bool = false;

/// The rows of one `P3` matrix of the default parameter set.
pub const P3_MAT_ROWS: usize = 8;

/// The columns of one `P3` matrix of the default parameter set.
pub const P3_MAT_COLS: usize = 8;

/// Whether `P3` is kept as its upper triangle.
pub const P3_IS_TRIANGULAR: bool = true;

/// The rows of one `L` matrix of the default parameter set.
pub const L_MAT_ROWS: usize = 78;

/// The columns of one `L` matrix of the default parameter set.
pub const L_MAT_COLS: usize = 8;

/// Whether `L` is kept as its upper triangle.
pub const L_IS_TRIANGULAR: bool = false;

/// The length in bytes of the packed `P1` of the default parameter set.
pub const P1_BYTES: usize = 120159;

/// The length in bytes of the packed `P2` of the default parameter set.
pub const P2_BYTES: usize = 24336;

/// The length in bytes of the packed `P3` of the default parameter set.
pub const P3_BYTES: usize = 1404;

/// The length in bytes of the packed `L` of the default parameter set.
pub const L_BYTES: usize = 24336;

} // verus!
