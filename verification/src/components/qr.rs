//! QR codes: a byte-mode encoder for versions 1–4 (Reed-Solomon error
//! correction, block interleaving, penalty-scored masking) and a view that
//! draws the module matrix with half-block cells inside a quiet zone.
//!
//! A payload too large for version 4 gives `None`; a host that needs bigger
//! codes encodes with its own library and hands the matrix to
//! [`QrCode::from_matrix`].

use vstd::prelude::*;
use vstd::string::StringSliceAdditionalSpecFns;
use vstd::arithmetic::div_mod::{lemma_fundamental_div_mod, lemma_fundamental_div_mod_converse};
use crate::geometry::{Rect, Size};
use crate::style::{Color, Style};
use crate::surface::{Surface, paint_cell};
use crate::view::RenderCtx;

verus! {

/// QR error-correction level: higher levels tolerate more damage but hold
/// less data at a given version.
#[derive(Clone, Copy, Debug, PartialEq, Eq, Structural)]
pub enum QrEcc {
    /// About 7% recovery: the most data.
    Low,
    /// About 15% recovery (the default).
    Medium,
    /// About 25% recovery.
    Quartile,
    /// About 30% recovery: the least data.
    High,
}

impl Default for QrEcc {
    fn default() -> (e: QrEcc)
        ensures
            e == QrEcc::Medium,
    {
        QrEcc::Medium
    }
}

/// The two-bit format code of a level.
pub open spec fn format_code(ecc: QrEcc) -> u32 {
    match ecc {
        QrEcc::Low => 1,
        QrEcc::Medium => 0,
        QrEcc::Quartile => 3,
        QrEcc::High => 2,
    }
}

impl QrEcc {
    fn format_bits(self) -> (b: u32)
        ensures
            b == format_code(self),
    {
        match self {
            QrEcc::Low => 1,
            QrEcc::Medium => 0,
            QrEcc::Quartile => 3,
            QrEcc::High => 2,
        }
    }
}

/// For a version (1–4) and level: error-correction codewords per block,
/// number of blocks, and data codewords per block.
pub open spec fn block_layout(version: int, ecc: QrEcc) -> (int, int, int) {
    if version == 1 {
        match ecc {
            QrEcc::Low => (7, 1, 19),
            QrEcc::Medium => (10, 1, 16),
            QrEcc::Quartile => (13, 1, 13),
            QrEcc::High => (17, 1, 9),
        }
    } else if version == 2 {
        match ecc {
            QrEcc::Low => (10, 1, 34),
            QrEcc::Medium => (16, 1, 28),
            QrEcc::Quartile => (22, 1, 22),
            QrEcc::High => (28, 1, 16),
        }
    } else if version == 3 {
        match ecc {
            QrEcc::Low => (15, 1, 55),
            QrEcc::Medium => (26, 1, 44),
            QrEcc::Quartile => (18, 2, 17),
            QrEcc::High => (22, 2, 13),
        }
    } else {
        match ecc {
            QrEcc::Low => (20, 1, 80),
            QrEcc::Medium => (18, 2, 32),
            QrEcc::Quartile => (26, 2, 24),
            QrEcc::High => (16, 4, 9),
        }
    }
}

/// Data codewords a version holds at a level.
pub open spec fn data_capacity(version: int, ecc: QrEcc) -> int {
    block_layout(version, ecc).1 * block_layout(version, ecc).2
}

/// The smallest version (1–4) whose data capacity holds `len` payload bytes
/// plus the two bytes of mode and count header, if any.
pub open spec fn fitting_version(len: int, ecc: QrEcc) -> Option<int> {
    if data_capacity(1, ecc) >= len + 2 {
        Some(1)
    } else if data_capacity(2, ecc) >= len + 2 {
        Some(2)
    } else if data_capacity(3, ecc) >= len + 2 {
        Some(3)
    } else if data_capacity(4, ecc) >= len + 2 {
        Some(4)
    } else {
        None
    }
}

fn layout(version: usize, ecc: QrEcc) -> (r: (usize, usize, usize))
    requires
        1 <= version <= 4,
    ensures
        r.0 == block_layout(version as int, ecc).0,
        r.1 == block_layout(version as int, ecc).1,
        r.2 == block_layout(version as int, ecc).2,
        r.0 <= 28 && 1 <= r.1 <= 4 && r.2 <= 80,
        r.1 * r.2 == data_capacity(version as int, ecc),
        r.1 * r.2 <= 80,
{
    if version == 1 {
        match ecc {
            QrEcc::Low => (7, 1, 19),
            QrEcc::Medium => (10, 1, 16),
            QrEcc::Quartile => (13, 1, 13),
            QrEcc::High => (17, 1, 9),
        }
    } else if version == 2 {
        match ecc {
            QrEcc::Low => (10, 1, 34),
            QrEcc::Medium => (16, 1, 28),
            QrEcc::Quartile => (22, 1, 22),
            QrEcc::High => (28, 1, 16),
        }
    } else if version == 3 {
        match ecc {
            QrEcc::Low => (15, 1, 55),
            QrEcc::Medium => (26, 1, 44),
            QrEcc::Quartile => (18, 2, 17),
            QrEcc::High => (22, 2, 13),
        }
    } else {
        match ecc {
            QrEcc::Low => (20, 1, 80),
            QrEcc::Medium => (18, 2, 32),
            QrEcc::Quartile => (26, 2, 24),
            QrEcc::High => (16, 4, 9),
        }
    }
}

// ---- GF(256) arithmetic (primitive polynomial 0x11d) ----

/// Multiplication by α in GF(256): a left shift reduced by 0x11d.
pub open spec fn gf_double(x: u16) -> u16 {
    let y = ((x as int) * 2) as u16;
    if y & 0x100 != 0 {
        y ^ 0x11d
    } else {
        y
    }
}

/// α to the power `i`.
pub open spec fn gf_pow(i: nat) -> u16
    decreases i,
{
    if i == 0 {
        1
    } else {
        gf_double(gf_pow((i - 1) as nat))
    }
}

proof fn lemma_xor_zero(x: u8)
    ensures
        x ^ 0u8 == x,
        0u8 ^ x == x,
        0u8 ^ 0u8 == 0u8,
{
    assert(x ^ 0u8 == x && 0u8 ^ x == x && 0u8 ^ 0u8 == 0u8) by (bit_vector);
}

/// The exponential table: α^i for `i` below 255, and α^0 again at 255.
pub open spec fn exp_table() -> Seq<u8> {
    Seq::new(
        256,
        |i: int|
            if i < 255 {
                gf_pow(i as nat) as u8
            } else {
                1u8
            },
    )
}

/// The logarithm table once `log[α^i] = i` has been written for every `i`
/// below `k`, over zeros.
pub open spec fn log_writes(k: nat) -> Seq<u8>
    decreases k,
{
    if k == 0 {
        Seq::new(256, |i: int| 0u8)
    } else {
        log_writes((k - 1) as nat).update(gf_pow((k - 1) as nat) as int, (k - 1) as u8)
    }
}

/// The logarithm table.
pub open spec fn log_table() -> Seq<u8> {
    log_writes(255)
}

/// The product of two field elements through exponential and logarithm
/// tables.
pub open spec fn gf_mul(exp: Seq<u8>, log: Seq<u8>, a: u8, b: u8) -> u8 {
if a == 0 || b == 0 {
    0
} else {
    exp[((log[a as int] as int + log[b as int] as int) % 255)]
}
}

/// Coefficient `k` of `gen_step(g, e)` once the first `a` terms of `g`
/// have been multiplied in.
pub open spec fn gen_partial(exp: Seq<u8>, log: Seq<u8>, g: Seq<u8>, e: u8, a: int, k: int) -> u8 {
    (if 1 <= k && k - 1 < a {
        gf_mul(exp, log, g[k - 1], e)
    } else {
        0u8
    }) ^ (if k < a {
        gf_mul(exp, log, g[k], 1)
    } else {
        0u8
    })
}

/// One factor `(x - e)` multiplied into `g` (coefficients high to low;
/// subtraction is XOR).
pub open spec fn gen_step(exp: Seq<u8>, log: Seq<u8>, g: Seq<u8>, e: u8) -> Seq<u8> {
    Seq::new(
        g.len() + 1,
        |k: int|
            (if k > 0 {
                gf_mul(exp, log, g[k - 1], e)
            } else {
                0u8
            }) ^ (if k < g.len() {
                gf_mul(exp, log, g[k], 1)
            } else {
                0u8
            }),
    )
}

/// The generator polynomial of degree `d`: the product of `(x - α^i)`
/// for `i` below `d`, through the tables.
pub open spec fn generator(exp: Seq<u8>, log: Seq<u8>, d: nat) -> Seq<u8>
    decreases d,
{
    if d == 0 {
        seq![1u8]
    } else {
        gen_step(exp, log, generator(exp, log, (d - 1) as nat), exp[d - 1])
    }
}

proof fn lemma_generator_len(exp: Seq<u8>, log: Seq<u8>, d: nat)
    ensures
        generator(exp, log, d).len() == d + 1,
    decreases d,
{
    if d > 0 {
        lemma_generator_len(exp, log, (d - 1) as nat);
    }
}

/// One step of polynomial long division: the leading term at `i` of
/// `res`, when nonzero, cancelled by subtracting that multiple of `gen`.
pub open spec fn div_step(exp: Seq<u8>, log: Seq<u8>, res: Seq<u8>, gen: Seq<u8>, i: int) -> Seq<u8> {
    let f = res[i];
    if f == 0 {
        res
    } else {
        Seq::new(
            res.len(),
            |t: int|
                if i <= t < i + gen.len() {
                    res[t] ^ gf_mul(exp, log, gen[t - i], f)
                } else {
                    res[t]
                },
        )
    }
}

/// The first `n` steps of long division of `res` by `gen`.
pub open spec fn divide(exp: Seq<u8>, log: Seq<u8>, res: Seq<u8>, gen: Seq<u8>, n: int) -> Seq<u8>
    decreases n,
{
    if n <= 0 {
        res
    } else {
        div_step(exp, log, divide(exp, log, res, gen, n - 1), gen, n - 1)
    }
}

/// The Reed-Solomon parity of `data`: the remainder of `data · x^ec_len`
/// divided by the degree-`ec_len` generator.
pub open spec fn rs_remainder(exp: Seq<u8>, log: Seq<u8>, data: Seq<u8>, ec_len: nat) -> Seq<u8> {
    divide(exp, log, data + Seq::new(ec_len, |t: int| 0u8), generator(exp, log, ec_len), data.len() as int).skip(
        data.len() as int,
    )
}


/// Exponential and logarithm tables of GF(256).
pub struct Gf {
    pub exp: Vec<u8>,
    pub log: Vec<u8>,
}

impl Gf {
    pub open spec fn wf(&self) -> bool {
        &&& self.exp@.len() == 256
        &&& self.log@.len() == 256
        &&& forall|i: int| 0 <= i < 256 ==> #[trigger] self.log@[i] < 255
    }

    /// The product of two field elements, through the tables.
    pub open spec fn spec_mul(&self, a: u8, b: u8) -> u8 {
        gf_mul(self.exp@, self.log@, a, b)
    }

    /// The tables: `exp[i]` is α^i (with `exp[255] = exp[0]`) and `log`
    /// inverts it on the values it takes.
    pub fn new() -> (gf: Gf)
        ensures
            gf.wf(),
            forall|i: int| 0 <= i < 255 ==> #[trigger] gf.exp@[i] as u16 == gf_pow(i as nat),
            gf.exp@[255] == gf.exp@[0],
            gf.exp@ == exp_table(),
            gf.log@ == log_table(),
    {
        let mut exp: Vec<u8> = Vec::new();
        let mut log: Vec<u8> = Vec::new();
        let mut k: usize = 0;
        while k < 256
            invariant
                k <= 256,
                exp@.len() == k,
                log@.len() == k,
                forall|j: int| 0 <= j < k ==> #[trigger] log@[j] < 255,
                forall|j: int| 0 <= j < k ==> #[trigger] log@[j] == 0,
            decreases 256 - k,
        {
            exp.push(0);
            log.push(0);
            k = k + 1;
        }
        proof {
            assert(log@ =~= log_writes(0));
        }
        let mut x: u16 = 1;
        let mut i: usize = 0;
        while i < 255
            invariant
                i <= 255,
                exp@.len() == 256,
                log@.len() == 256,
                x < 256,
                x == gf_pow(i as nat),
                forall|j: int| 0 <= j < i ==> #[trigger] exp@[j] as u16 == gf_pow(j as nat),
                forall|j: int| 0 <= j < i ==> #[trigger] exp@[j] == gf_pow(j as nat) as u8,
                forall|j: int| 0 <= j < 256 ==> #[trigger] log@[j] < 255,
                log@ == log_writes(i as nat),
            decreases 255 - i,
        {
            exp.set(i, x as u8);
            log.set(x as usize, i as u8);
            let y: u16 = x << 1u16;
            let next: u16 = if y & 0x100 != 0 { y ^ 0x11d } else { y };
            proof {
                assert(y == ((x as int) * 2) as u16) by (bit_vector)
                    requires
                        x < 256,
                        y == x << 1u16,
                ;
                assert(next < 256) by (bit_vector)
                    requires
                        x < 256,
                        y == x << 1u16,
                        next == if y & 0x100 != 0 { y ^ 0x11d } else { y },
                ;
            }
            x = next;
            i = i + 1;
        }
        let first = exp[0];
        exp.set(255, first);
        proof {
            assert(exp@ =~= exp_table());
        }
        Gf { exp, log }
    }

    /// Multiply two field elements.
    pub fn mul(&self, a: u8, b: u8) -> (r: u8)
        requires
            self.wf(),
        ensures
            r == self.spec_mul(a, b),
    {
        if a == 0 || b == 0 {
            0
        } else {
            let l = self.log[a as usize] as usize + self.log[b as usize] as usize;
            self.exp[l % 255]
        }
    }

    /// The monic generator polynomial of degree `degree` (coefficients high to
    /// low): the product of `(x - α^i)` for `i` below `degree`.
    pub fn rs_generator(&self, degree: usize) -> (g: Vec<u8>)
        requires
            self.wf(),
            degree <= 255,
        ensures
            g@ == generator(self.exp@, self.log@, degree as nat),
    {
        let mut g: Vec<u8> = Vec::new();
        g.push(1);
        proof {
            assert(g@ =~= generator(self.exp@, self.log@, 0));
        }
        let mut i: usize = 0;
        while i < degree
            invariant
                i <= degree <= 255,
                self.wf(),
                g@ == generator(self.exp@, self.log@, i as nat),
                g@.len() == i + 1,
            decreases degree - i,
        {
            let e = self.exp[i];
            let factor: [u8; 2] = [1, e];
            let mut next: Vec<u8> = Vec::new();
            let mut k: usize = 0;
            while k < g.len() + 1
                invariant
                    g@.len() == i + 1,
                    i < degree <= 255,
                    k <= g@.len() + 1,
                    next@.len() == k,
                    forall|t: int| 0 <= t < k ==> next@[t] == 0,
                decreases g@.len() + 1 - k,
            {
                next.push(0);
                k = k + 1;
            }
            proof {
                lemma_xor_zero(0u8);
            }
            let mut a: usize = 0;
            while a < g.len()
                invariant
                    a <= g@.len(),
                    g@.len() == i + 1,
                    i < degree <= 255,
                    next@.len() == g@.len() + 1,
                    self.wf(),
                    factor@ == seq![1u8, e],
                    forall|t: int| 0 <= t < next@.len() ==> #[trigger] next@[t] == gen_partial(self.exp@, self.log@, g@, e, a as int, t),
                decreases g@.len() - a,
            {
                let cur0 = next[a];
                let prod0 = self.mul(g[a], factor[0]);
                next.set(a, cur0 ^ prod0);
                let cur1 = next[a + 1];
                let prod1 = self.mul(g[a], factor[1]);
                next.set(a + 1, cur1 ^ prod1);
                proof {
                    let x = if 1 <= a { self.spec_mul(g@[a - 1], e) } else { 0u8 };
                    lemma_xor_zero(x);
                    lemma_xor_zero(prod1);
                    lemma_xor_zero(prod0);
                    assert forall|t: int| 0 <= t < next@.len() implies #[trigger] next@[t] == gen_partial(self.exp@, self.log@, 
                        g@,
                        e,
                        a + 1,
                        t,
                    ) by {
                        if t == a as int {
                            assert(next@[t] == (x ^ 0u8) ^ prod0);
                        } else if t == a + 1 {
                            assert(next@[t] == (0u8 ^ 0u8) ^ prod1);
                        }
                    }
                }
                a = a + 1;
            }
            proof {
                assert(next@ =~= gen_step(self.exp@, self.log@, g@, e));
            }
            g = next;
            i = i + 1;
        }
        g
    }

    /// The `ec_len` Reed-Solomon error-correction codewords of `data`: the
    /// remainder of `data · x^ec_len` divided by the generator.
    pub fn rs_ecc(&self, data: &[u8], ec_len: usize) -> (r: Vec<u8>)
        requires
            self.wf(),
            ec_len <= 255,
            data@.len() + ec_len <= usize::MAX,
        ensures
            r@ == rs_remainder(self.exp@, self.log@, data@, ec_len as nat),
            r@.len() == ec_len,
    {
        let gen_poly = self.rs_generator(ec_len);
        proof {
            lemma_generator_len(self.exp@, self.log@, ec_len as nat);
        }
        let ghost gen = generator(self.exp@, self.log@, ec_len as nat);
        let ghost start = data@ + Seq::new(ec_len as nat, |t: int| 0u8);
        let mut res: Vec<u8> = Vec::new();
        let mut k: usize = 0;
        while k < data.len()
            invariant
                k <= data@.len(),
                res@ == data@.take(k as int),
            decreases data@.len() - k,
        {
            res.push(data[k]);
            k = k + 1;
            proof {
                assert(res@ =~= data@.take(k as int));
            }
        }
        let mut z: usize = 0;
        while z < ec_len
            invariant
                z <= ec_len,
                res@ == data@ + Seq::new(z as nat, |t: int| 0u8),
            decreases ec_len - z,
        {
            res.push(0);
            z = z + 1;
            proof {
                assert(res@ =~= data@ + Seq::new(z as nat, |t: int| 0u8));
            }
        }
        proof {
            assert(res@ =~= divide(self.exp@, self.log@, start, gen, 0));
        }
        let mut i: usize = 0;
        while i < data.len()
            invariant
                i <= data@.len(),
                data@.len() + ec_len <= usize::MAX,
                ec_len <= 255,
                res@.len() == data@.len() + ec_len,
                gen_poly@ == gen,
                gen.len() == ec_len + 1,
                self.wf(),
                res@ == divide(self.exp@, self.log@, start, gen, i as int),
            decreases data@.len() - i,
        {
            let ghost before = res@;
            let factor = res[i];
            if factor != 0 {
                let mut j: usize = 0;
                while j < gen_poly.len()
                    invariant
                        j <= gen_poly@.len(),
                        i < data@.len(),
                        data@.len() + ec_len <= usize::MAX,
                        ec_len <= 255,
                        res@.len() == data@.len() + ec_len,
                        gen_poly@ == gen,
                        gen.len() == ec_len + 1,
                        self.wf(),
                        factor == before[i as int],
                        before.len() == res@.len(),
                        forall|t: int|
                            0 <= t < res@.len() ==> #[trigger] res@[t] == if i <= t < i + j {
                                before[t] ^ self.spec_mul(gen[t - i], factor)
                            } else {
                                before[t]
                            },
                    decreases gen_poly@.len() - j,
                {
                    let cur = res[i + j];
                    let prod = self.mul(gen_poly[j], factor);
                    res.set(i + j, cur ^ prod);
                    j = j + 1;
                }
            }
            proof {
                assert(res@ =~= div_step(self.exp@, self.log@, before, gen, i as int));
            }
            i = i + 1;
        }
        let mut out: Vec<u8> = Vec::new();
        let mut t: usize = data.len();
        while t < res.len()
            invariant
                data@.len() <= t <= res@.len(),
                out@ == res@.subrange(data@.len() as int, t as int),
            decreases res@.len() - t,
        {
            out.push(res[t]);
            t = t + 1;
            proof {
                assert(out@ =~= res@.subrange(data@.len() as int, t as int));
            }
        }
        proof {
            assert(out@ =~= res@.skip(data@.len() as int));
        }
        out
    }
}

/// Bit `i` of `x`.
pub open spec fn bit(x: u32, i: u32) -> bool {
    (x >> i) & 1 != 0
}

fn getbit(x: u32, i: u32) -> (b: bool)
    requires
        i < 32,
    ensures
        b == bit(x, i),
{
    (x >> i) & 1 != 0
}

proof fn lemma_cell_index(x: int, y: int, size: int)
    requires
        0 <= x < size,
        0 <= y < size,
        size <= 33,
    ensures
        0 <= y * size + x < size * size,
        size * size <= 1089,
{
    assert(size * size <= 1089) by (nonlinear_arith)
        requires
            0 <= size <= 33,
    ;
    assert(y * size + x < size * size) by (nonlinear_arith)
        requires
            0 <= x < size,
            0 <= y < size,
    ;
    assert(0 <= y * size) by (nonlinear_arith)
        requires
            0 <= y,
            0 <= size,
    ;
}

/// One step of the BCH remainder: shift in a zero and reduce by the
/// format generator 0x537.
pub open spec fn bch_step(rem: u32) -> u32 {
    (rem << 1u32) ^ (((rem >> 9u32) * 0x537u32) as u32)
}

/// `data` after `r` remainder steps.
pub open spec fn bch_rem(data: u32, r: nat) -> u32
    decreases r,
{
    if r == 0 {
        data
    } else {
        bch_step(bch_rem(data, (r - 1) as nat))
    }
}

/// The 15-bit format word for `ecc` and `mask`: the five data bits, their
/// ten BCH check bits, XORed with the format mask 0x5412.
pub open spec fn format_word(ecc: QrEcc, mask: u8) -> u32 {
    let data = (format_code(ecc) << 3u32) | (mask as u32);
    ((data << 10u32) | bch_rem(data, 10)) ^ 0x5412u32
}

proof fn lemma_bch_step_small(rem: u32)
    requires
        rem < 1024,
    ensures
        bch_step(rem) < 1024,
{
    assert((rem < 1024u32) ==> (rem << 1u32) ^ (((rem >> 9u32) * 0x537u32) as u32) < 1024u32) by (bit_vector);
}

proof fn lemma_bch_rem_small(data: u32, r: nat)
    requires
        data < 1024,
    ensures
        bch_rem(data, r) < 1024,
    decreases r,
{
    if r > 0 {
        lemma_bch_rem_small(data, (r - 1) as nat);
        lemma_bch_step_small(bch_rem(data, (r - 1) as nat));
    }
}

/// What a reader decodes from the format word: undoing the 0x5412 mask,
/// the top two of the fifteen bits are the level indicator of the QR
/// standard (L = 01, M = 00, Q = 11, H = 10) and the next three are the
/// mask pattern.
pub proof fn lemma_format_word_decodes(ecc: QrEcc, mask: u8)
    requires
        mask < 8,
    ensures
        format_word(ecc, mask) < 0x8000,
        (format_word(ecc, mask) ^ 0x5412u32) >> 13u32 == match ecc {
            QrEcc::Low => 0b01u32,
            QrEcc::Medium => 0b00u32,
            QrEcc::Quartile => 0b11u32,
            QrEcc::High => 0b10u32,
        },
        ((format_word(ecc, mask) ^ 0x5412u32) >> 10u32) & 7u32 == mask as u32,
{
    let code = format_code(ecc);
    let m = mask as u32;
    let data = (code << 3u32) | m;
    assert(code < 4);
    assert(data < 32u32 && data >> 3u32 == code && data & 7u32 == m) by (bit_vector)
        requires
            code < 4u32,
            m < 8u32,
            data == (code << 3u32) | m,
    ;
    let rem = bch_rem(data, 10);
    lemma_bch_rem_small(data, 10);
    let w = ((data << 10u32) | rem) ^ 0x5412u32;
    assert(w < 0x8000u32 && (w ^ 0x5412u32) >> 13u32 == data >> 3u32 && ((w ^ 0x5412u32) >> 10u32) & 7u32 == data
        & 7u32) by (bit_vector)
        requires
            data < 32u32,
            rem < 1024u32,
            w == ((data << 10u32) | rem) ^ 0x5412u32,
    ;
}

/// The `k`th format module written in a canvas `n` modules a side: its
/// position and value (`word` bit, or always dark for the last).
pub open spec fn format_write(n: int, word: u32, k: int) -> (int, int, bool) {
    if k <= 5 {
        (8, k, bit(word, k as u32))
    } else if k == 6 {
        (8, 7, bit(word, 6))
    } else if k == 7 {
        (8, 8, bit(word, 7))
    } else if k == 8 {
        (7, 8, bit(word, 8))
    } else if k < 15 {
        (14 - k, 8, bit(word, k as u32))
    } else if k < 23 {
        (n - 1 - (k - 15), 8, bit(word, (k - 15) as u32))
    } else if k < 30 {
        (8, n - 15 + (k - 15), bit(word, (k - 15) as u32))
    } else {
        (8, n - 8, true)
    }
}

/// What the first `k` format writes leave at `(x, y)`, if any.
pub open spec fn format_written(n: int, word: u32, k: int, x: int, y: int) -> Option<bool>
    decreases k,
{
    if k <= 0 {
        None
    } else {
        let w = format_write(n, word, k - 1);
        if w.0 == x && w.1 == y {
            Some(w.2)
        } else {
            format_written(n, word, k - 1, x, y)
        }
    }
}

/// `2^b` for the small exponents a byte needs.
pub open spec fn pow2_small(b: int) -> int
    decreases b,
{
    if b <= 0 {
        1
    } else {
        2 * pow2_small(b - 1)
    }
}

/// The message bit stream for `data`: the byte-mode indicator 0100, the
/// 8-bit length, each byte most significant bit first, and a 4-bit
/// terminator of zeros.
pub open spec fn message_bits(data: Seq<u8>) -> Seq<bool> {
    Seq::new(
        (16 + 8 * data.len()) as nat,
        |k: int|
            if k < 4 {
                bit(4u32, (3 - k) as u32)
            } else if k < 12 {
                bit(data.len() as u32, (11 - k) as u32)
            } else if k < 12 + 8 * data.len() {
                code_bit(data, k - 12)
            } else {
                false
            },
    )
}

/// The first `b` bits of `bits` from `start`, packed most significant first.
pub open spec fn pack(bits: Seq<bool>, start: int, b: nat) -> u8
    decreases b,
{
    if b == 0 {
        0
    } else {
        (pack(bits, start, (b - 1) as nat) * 2 + if bits[start + b - 1] {
            1int
        } else {
            0int
        }) as u8
    }
}

/// The `total` data codewords for `data`: the message bits packed eight to
/// a byte, then pad bytes alternating 0xEC and 0x11.
pub open spec fn data_codewords(data: Seq<u8>, total: int) -> Seq<u8> {
    let n = data.len() + 2;
    Seq::new(
        total as nat,
        |c: int|
            if c < n {
                pack(message_bits(data), 8 * c, 8)
            } else if (c - n) % 2 == 0 {
                0xECu8
            } else {
                0x11u8
            },
    )
}

/// The codeword stream of `cw` split into `nb` blocks of `blen`: the data
/// blocks interleaved codeword by codeword, then each block's `ec_len`
/// Reed-Solomon parity codewords interleaved the same way.
pub open spec fn interleaved(cw: Seq<u8>, nb: int, blen: int, ec_len: int) -> Seq<u8> {
    Seq::new((nb * blen) as nat, |k: int| cw[(k % nb) * blen + k / nb]) + Seq::new(
        (nb * ec_len) as nat,
        |k: int|
            rs_remainder(exp_table(), log_table(), cw.subrange((k % nb) * blen, (k % nb) * blen + blen), ec_len as nat)[k
                / nb],
    )
}

/// Column pairs in the canvas, right to left, the timing column skipped.
pub open spec fn pairs(size: int) -> int {
    (size - 1) / 2
}

/// The right column of pair `p`: stepping left two at a time from the right
/// edge, one further left once past the vertical timing column.
pub open spec fn pair_right(size: int, p: int) -> int {
    let r = size - 1 - 2 * p;
    if r <= 6 {
        r - 1
    } else {
        r
    }
}

/// Whether the column pair whose right column is `right` is walked upwards.
pub open spec fn upward(right: int) -> bool {
    ((right + 1) / 2) % 2 == 0
}

/// The module of zigzag visit `t`: pairs right to left, each walked up or
/// down alternately, right column before left in every row.
pub open spec fn zz(size: int, t: int) -> (int, int) {
    let p = t / (2 * size);
    let vert = (t % (2 * size)) / 2;
    let j = t % 2;
    let right = pair_right(size, p);
    (
        right - j,
        if upward(right) {
            size - 1 - vert
        } else {
            vert
        },
    )
}

/// The zigzag visit that lands on `(x, y)` (outside the timing column).
pub open spec fn visit(size: int, x: int, y: int) -> int {
    let right = if x > 6 {
        if (size - 1 - x) % 2 == 0 {
            x
        } else {
            x + 1
        }
    } else {
        if x % 2 == 1 {
            x
        } else {
            x + 1
        }
    };
    let p = if right > 6 {
        (size - 1 - right) / 2
    } else {
        (size - 2 - right) / 2
    };
    let vert = if upward(right) {
        size - 1 - y
    } else {
        y
    };
    p * 2 * size + vert * 2 + (right - x)
}

/// Bit `k` of `data`, most significant bit of each byte first.
pub open spec fn code_bit(data: Seq<u8>, k: int) -> bool {
    bit(data[k / 8] as u32, (7 - k % 8) as u32)
}

proof fn lemma_upward(right: i32)
    requires
        0 <= right <= 40,
    ensures
        ((((right + 1) as i32) & 2i32) == 0i32) == upward(right as int),
{
    let r1: i32 = (right + 1) as i32;
    assert(((r1 & 2i32) == 0i32) == ((r1 / 2) % 2 == 0)) by (bit_vector)
        requires
            0 <= r1 <= 41,
    ;
}

proof fn lemma_zz_visit(size: int, p: int, vert: int, j: int)
    requires
        21 <= size <= 33,
        size % 4 == 1,
        0 <= p < pairs(size),
        0 <= vert < size,
        0 <= j < 2,
    ensures
        ({
            let t = p * 2 * size + vert * 2 + j;
            let c = zz(size, t);
            &&& c.0 == pair_right(size, p) - j
            &&& c.1 == if upward(pair_right(size, p)) {
                size - 1 - vert
            } else {
                vert
            }
            &&& 0 <= c.0 < size
            &&& c.0 != 6
            &&& 0 <= c.1 < size
            &&& visit(size, c.0, c.1) == t
            &&& 0 <= t < pairs(size) * 2 * size
        }),
{
    let m = 2 * size;
    let t = p * 2 * size + vert * 2 + j;
    assert(p * 2 * size == p * m) by (nonlinear_arith)
        requires
            m == 2 * size,
    ;
    lemma_fundamental_div_mod_converse(t, m, p, vert * 2 + j);
    lemma_fundamental_div_mod_converse(vert * 2 + j, 2, vert, j);
    assert(p * 2 * size == 2 * (p * size)) by (nonlinear_arith);
    lemma_fundamental_div_mod_converse(t, 2, p * size + vert, j);
    assert((p + 1) * 2 * size <= pairs(size) * 2 * size) by (nonlinear_arith)
        requires
            p + 1 <= pairs(size),
            size > 0,
    ;
    assert((p + 1) * 2 * size == p * 2 * size + 2 * size) by (nonlinear_arith);
}

proof fn lemma_visit_zz(size: int, x: int, y: int)
    requires
        21 <= size <= 33,
        size % 4 == 1,
        0 <= x < size,
        0 <= y < size,
    ensures
        x != 6 ==> 0 <= visit(size, x, y) < pairs(size) * 2 * size,
        x != 6 ==> zz(size, visit(size, x, y)) == (x, y),
{
    if x != 6 {
        let right = if x > 6 {
            if (size - 1 - x) % 2 == 0 {
                x
            } else {
                x + 1
            }
        } else {
            if x % 2 == 1 {
                x
            } else {
                x + 1
            }
        };
        let p = if right > 6 {
            (size - 1 - right) / 2
        } else {
            (size - 2 - right) / 2
        };
        let vert = if upward(right) {
            size - 1 - y
        } else {
            y
        };
        assert(pair_right(size, p) == right);
        lemma_zz_visit(size, p, vert, right - x);
    }
}

proof fn lemma_next_pair(size: int, p: int)
    requires
        21 <= size <= 33,
        size % 4 == 1,
        0 <= p < pairs(size),
        pair_right(size, p) >= 2,
    ensures
        p + 1 < pairs(size),
        pair_right(size, p) - 2 == pair_right(size, p + 1) || (pair_right(size, p) - 2 == 6 && pair_right(size, p + 1)
            == 5),
        (p + 1) * 2 * size == p * 2 * size + size * 2,
{
    assert((p + 1) * 2 * size == p * 2 * size + size * 2) by (nonlinear_arith);
}

proof fn lemma_last_pair(size: int, p: int)
    requires
        21 <= size <= 33,
        size % 4 == 1,
        0 <= p < pairs(size),
        pair_right(size, p) < 2,
    ensures
        p == pairs(size) - 1,
        (p + 1) * 2 * size == p * 2 * size + size * 2,
{
    assert((p + 1) * 2 * size == p * 2 * size + size * 2) by (nonlinear_arith);
}

/// `a` where it answers, else `b`.
pub open spec fn over(a: Option<bool>, b: Option<bool>) -> Option<bool> {
    if a is Some {
        a
    } else {
        b
    }
}

/// The timing patterns: row and column 6 alternate dark and light,
/// starting dark.
pub open spec fn timing_module(x: int, y: int) -> Option<bool> {
    if x == 6 {
        Some(y % 2 == 0)
    } else if y == 6 {
        Some(x % 2 == 0)
    } else {
        None
    }
}

/// The timing modules drawn before index `i`.
pub open spec fn timing_done(i: int, x: int, y: int) -> Option<bool> {
    if x == 6 && 0 <= y < i {
        Some(y % 2 == 0)
    } else if y == 6 && 0 <= x < i {
        Some(x % 2 == 0)
    } else {
        None
    }
}

/// The three finders (with separators) over the timing patterns, in a
/// canvas `n` modules a side.
pub open spec fn finders_and_timing(n: int, x: int, y: int) -> Option<bool> {
    over(
        finder_module(3, n - 4, x, y),
        over(finder_module(n - 4, 3, x, y), over(finder_module(3, 3, x, y), timing_module(x, y))),
    )
}

/// Every function module of a version-`version` canvas `n` modules a side:
/// the reserved format modules (with a placeholder word) over the alignment
/// pattern (versions 2 and up) over the finders over the timing patterns.
pub open spec fn function_module(version: int, n: int, x: int, y: int) -> Option<bool> {
    over(
        format_written(n, format_word(QrEcc::Low, 0), 31, x, y),
        over(
            if version >= 2 {
                alignment_module(n - 7, n - 7, x, y)
            } else {
                None
            },
            finders_and_timing(n, x, y),
        ),
    )
}

proof fn lemma_overlay_chain(
    c0: Canvas,
    c1: Canvas,
    c2: Canvas,
    f: spec_fn(int, int) -> Option<bool>,
    g: spec_fn(int, int) -> Option<bool>,
)
    requires
        c1.overlays(c0, f),
        c2.overlays(c1, g),
    ensures
        c2.overlays(c0, |x: int, y: int| over(g(x, y), f(x, y))),
{
    assert forall|x: int, y: int|
        #![trigger c2.dark(x, y)]
        0 <= x < c2.size && 0 <= y < c2.size implies match over(g(x, y), f(x, y)) {
        Some(v) => c2.dark(x, y) == v && c2.is_function(x, y),
        None => c2.dark(x, y) == c0.dark(x, y) && c2.is_function(x, y) == c0.is_function(x, y),
    } by {
        assert(c1.dark(x, y) == c1.dark(x, y));
        assert(c2.dark(x, y) == c2.dark(x, y));
    }
}

/// Chebyshev distance of `(dx, dy)` from the origin.
pub open spec fn cheb(dx: int, dy: int) -> int {
    let ax = if dx < 0 {
        -dx
    } else {
        dx
    };
    let ay = if dy < 0 {
        -dy
    } else {
        dy
    };
    if ax > ay {
        ax
    } else {
        ay
    }
}

/// Finder rings by distance from the center: dark at 0, 1 and 3, light at
/// 2 and at 4 (the separator).
pub open spec fn finder_value(dx: int, dy: int) -> bool {
    cheb(dx, dy) != 2 && cheb(dx, dy) != 4
}

/// The finder pattern with its separator around `(cx, cy)`.
pub open spec fn finder_module(cx: int, cy: int, x: int, y: int) -> Option<bool> {
    if cheb(x - cx, y - cy) <= 4 {
        Some(finder_value(x - cx, y - cy))
    } else {
        None
    }
}

/// The alignment pattern around `(cx, cy)`: dark at distances 0 and 2,
/// light at 1.
pub open spec fn alignment_module(cx: int, cy: int, x: int, y: int) -> Option<bool> {
    if cheb(x - cx, y - cy) <= 2 {
        Some(cheb(x - cx, y - cy) != 1)
    } else {
        None
    }
}

/// Whether offset `(ex, ey)` of a square of radius `r`, drawn row by row,
/// is drawn once the cursor stands at `(dx, dy)`.
pub open spec fn square_done(ex: int, ey: int, dx: int, dy: int, r: int) -> bool {
    -r <= ex <= r && -r <= ey <= r && (ey < dy || (ey == dy && ex < dx))
}

/// Whether mask pattern `mask` flips the module at `(x, y)`.
pub open spec fn mask_flips(mask: u8, x: int, y: int) -> bool {
    if mask == 0 {
        (x + y) % 2 == 0
    } else if mask == 1 {
        y % 2 == 0
    } else if mask == 2 {
        x % 3 == 0
    } else if mask == 3 {
        (x + y) % 3 == 0
    } else if mask == 4 {
        (x / 3 + y / 2) % 2 == 0
    } else if mask == 5 {
        (x * y) % 2 + (x * y) % 3 == 0
    } else if mask == 6 {
        ((x * y) % 2 + (x * y) % 3) % 2 == 0
    } else {
        ((x + y) % 2 + (x * y) % 3) % 2 == 0
    }
}

/// The function modules of a version-`v` symbol.
pub open spec fn qr_function(v: int, x: int, y: int) -> Option<bool> {
    function_module(v, 17 + 4 * v, x, y)
}

/// How many of the first `t` zigzag visits of a version-`v` symbol land
/// outside its function modules.
pub open spec fn qr_rank(v: int, t: int) -> int
    decreases t,
{
    if t <= 0 {
        0
    } else {
        qr_rank(v, t - 1) + if qr_function(v, zz(17 + 4 * v, t - 1).0, zz(17 + 4 * v, t - 1).1) is Some {
            0int
        } else {
            1int
        }
    }
}

/// A version-`v` symbol before masking: its function patterns, and the
/// bits of `stream` laid over the other modules in zigzag order (light
/// where the stream runs out).
pub open spec fn qr_base(v: int, stream: Seq<u8>, x: int, y: int) -> bool {
    match qr_function(v, x, y) {
        Some(d) => d,
        None => if x != 6 && qr_rank(v, visit(17 + 4 * v, x, y)) < stream.len() * 8 {
            code_bit(stream, qr_rank(v, visit(17 + 4 * v, x, y)))
        } else {
            false
        },
    }
}

/// The module at `(x, y)` of the symbol masked with `mask`: the format
/// information for `ecc` and `mask` where it goes, function modules as
/// they are, and every other module flipped where the mask selects it.
pub open spec fn qr_module(v: int, stream: Seq<u8>, ecc: QrEcc, mask: u8, x: int, y: int) -> bool {
    match format_written(17 + 4 * v, format_word(ecc, mask), 31, x, y) {
        Some(d) => d,
        None => if qr_function(v, x, y) is Some {
            qr_base(v, stream, x, y)
        } else {
            qr_base(v, stream, x, y) != mask_flips(mask, x, y)
        },
    }
}

/// The masked symbol's modules, rows top to bottom.
pub open spec fn qr_grid(v: int, stream: Seq<u8>, ecc: QrEcc, mask: u8) -> Seq<bool> {
    let n = 17 + 4 * v;
    Seq::new((n * n) as nat, |k: int| qr_module(v, stream, ecc, mask, k % n, k / n))
}

/// The penalty of the symbol masked with `mask`.
pub open spec fn mask_penalty(v: int, stream: Seq<u8>, ecc: QrEcc, mask: u8) -> int {
    grid_penalty(17 + 4 * v, qr_grid(v, stream, ecc, mask))
}

/// The first of masks `0..k` with the least penalty.
pub open spec fn best_mask(v: int, stream: Seq<u8>, ecc: QrEcc, k: int) -> u8
    decreases k,
{
    if k <= 1 {
        0
    } else {
        let b = best_mask(v, stream, ecc, k - 1);
        if mask_penalty(v, stream, ecc, (k - 1) as u8) < mask_penalty(v, stream, ecc, b) {
            (k - 1) as u8
        } else {
            b
        }
    }
}

/// The codeword stream for `data` at `ecc` in version `v`.
pub open spec fn qr_stream(data: Seq<u8>, ecc: QrEcc, v: int) -> Seq<u8> {
    let (ec_len, nb, blen) = block_layout(v, ecc);
    interleaved(data_codewords(data, nb * blen), nb, blen, ec_len)
}

/// The top-left finder pattern survives into every encoded symbol: the
/// seven-by-seven corner reads as the finder's rings whatever the data,
/// level and mask.
pub proof fn lemma_finder_present(v: int, stream: Seq<u8>, ecc: QrEcc, mask: u8, x: int, y: int)
    requires
        1 <= v <= 4,
        0 <= x <= 6,
        0 <= y <= 6,
    ensures
        qr_module(v, stream, ecc, mask, x, y) == finder_value(x - 3, y - 3),
{
    reveal_with_fuel(format_written, 32);
    let n = 17 + 4 * v;
    assert(format_written(n, format_word(ecc, mask), 31, x, y) is None);
    assert(format_written(n, format_word(QrEcc::Low, 0), 31, x, y) is None);
    assert(qr_function(v, x, y) == Some(finder_value(x - 3, y - 3)));
}

proof fn lemma_grid_index(k: int, n: int)
    requires
        n > 0,
        0 <= k < n * n,
    ensures
        0 <= k % n < n,
        0 <= k / n < n,
        (k / n) * n + k % n == k,
{
    lemma_fundamental_div_mod(k, n);
    let q = k / n;
    assert(0 <= q < n) by (nonlinear_arith)
        requires
            k == n * q + k % n,
            0 <= k % n < n,
            0 <= k < n * n,
            n > 0,
    ;
    assert(q * n == n * q) by (nonlinear_arith);
}

proof fn lemma_zz_in(size: int, s: int)
    requires
        21 <= size <= 33,
        size % 4 == 1,
        0 <= s < pairs(size) * 2 * size,
    ensures
        0 <= zz(size, s).0 < size,
        0 <= zz(size, s).1 < size,
        zz(size, s).0 != 6,
{
    let m = 2 * size;
    lemma_fundamental_div_mod(s, m);
    lemma_fundamental_div_mod(s % m, 2);
    let p = s / m;
    let r = s % m;
    assert(0 <= p < pairs(size)) by (nonlinear_arith)
        requires
            s == m * p + r,
            0 <= r < m,
            0 <= s < pairs(size) * 2 * size,
            m == 2 * size,
            size > 0,
    ;
    assert(s == p * 2 * size + (r / 2) * 2 + r % 2) by (nonlinear_arith)
        requires
            s == m * p + r,
            m == 2 * size,
            r == 2 * (r / 2) + r % 2,
    ;
    lemma_zz_visit(size, p, r / 2, r % 2);
}

/// The module at `(x, y)` of a grid `sz` modules a side, rows top to bottom.
pub open spec fn gdark(sz: int, g: Seq<bool>, x: int, y: int) -> bool {
    g[y * sz + x]
}

/// The modules of row `i` (`horizontal`) or of column `i`.
pub open spec fn grid_line(sz: int, g: Seq<bool>, i: int, horizontal: bool) -> Seq<bool> {
    Seq::new(
        sz as nat,
        |j: int|
            if horizontal {
                gdark(sz, g, j, i)
            } else {
                gdark(sz, g, i, j)
            },
    )
}

/// Rule-1 points of the first `n` rows (`horizontal`) or columns.
pub open spec fn grid_lines_points(sz: int, g: Seq<bool>, n: int, horizontal: bool) -> int
    decreases n,
{
    if n <= 0 {
        0
    } else {
        grid_lines_points(sz, g, n - 1, horizontal) + run_points(grid_line(sz, g, n - 1, horizontal), sz)
    }
}

/// Whether the 2x2 block with top-left `(x, y)` is one color.
pub open spec fn grid_block_at(sz: int, g: Seq<bool>, x: int, y: int) -> bool {
    &&& gdark(sz, g, x, y) == gdark(sz, g, x + 1, y)
    &&& gdark(sz, g, x, y) == gdark(sz, g, x, y + 1)
    &&& gdark(sz, g, x, y) == gdark(sz, g, x + 1, y + 1)
}

/// One-color 2x2 blocks with their top-left in row `y`, before column `n`.
pub open spec fn grid_blocks_in_row(sz: int, g: Seq<bool>, y: int, n: int) -> int
    decreases n,
{
    if n <= 0 {
        0
    } else {
        grid_blocks_in_row(sz, g, y, n - 1) + if grid_block_at(sz, g, n - 1, y) {
            1int
        } else {
            0int
        }
    }
}

/// One-color 2x2 blocks with their top-left above row `m`.
pub open spec fn grid_blocks(sz: int, g: Seq<bool>, m: int) -> int
    decreases m,
{
    if m <= 0 {
        0
    } else {
        grid_blocks(sz, g, m - 1) + grid_blocks_in_row(sz, g, m - 1, sz - 1)
    }
}

/// Whether the eleven modules from `(x, y)` rightwards (`horizontal`) or
/// downwards fit and form a finder-like pattern.
pub open spec fn grid_finder_at(sz: int, g: Seq<bool>, x: int, y: int, horizontal: bool) -> bool {
    if horizontal {
        x + 11 <= sz && finder_like(Seq::new(11, |k: int| gdark(sz, g, x + k, y)))
    } else {
        y + 11 <= sz && finder_like(Seq::new(11, |k: int| gdark(sz, g, x, y + k)))
    }
}

/// Finder-like patterns starting in row `y` before column `n`, across and
/// down.
pub open spec fn grid_finders_in_row(sz: int, g: Seq<bool>, y: int, n: int) -> int
    decreases n,
{
    if n <= 0 {
        0
    } else {
        grid_finders_in_row(sz, g, y, n - 1) + (if grid_finder_at(sz, g, n - 1, y, true) {
            1int
        } else {
            0int
        }) + (if grid_finder_at(sz, g, n - 1, y, false) {
            1int
        } else {
            0int
        })
    }
}

/// Finder-like patterns starting above row `m`.
pub open spec fn grid_finders(sz: int, g: Seq<bool>, m: int) -> int
    decreases m,
{
    if m <= 0 {
        0
    } else {
        grid_finders(sz, g, m - 1) + grid_finders_in_row(sz, g, m - 1, sz)
    }
}

/// The mask penalty of a grid `sz` modules a side: rule-1 run points over
/// every row and column, three per one-color 2x2 block, forty per
/// finder-like pattern, and the dark/light balance points.
pub open spec fn grid_penalty(sz: int, g: Seq<bool>) -> int {
    grid_lines_points(sz, g, sz, true) + grid_lines_points(sz, g, sz, false) + 3 * grid_blocks(sz, g, sz - 1) + 40
        * grid_finders(sz, g, sz) + balance_points(dark_count(g), sz * sz)
}

/// `b` is `a` transposed: both `sz` by `sz`, module `(x, y)` of `b` being
/// module `(y, x)` of `a`.
pub open spec fn transposed(sz: int, a: Seq<bool>, b: Seq<bool>) -> bool {
    &&& sz >= 0
    &&& a.len() == sz * sz
    &&& b.len() == sz * sz
    &&& forall|x: int, y: int| 0 <= x < sz && 0 <= y < sz ==> #[trigger] gdark(sz, b, x, y) == gdark(sz, a, y, x)
}

/// `f(0, y) + ... + f(n - 1, y)`.
pub open spec fn row_total(f: spec_fn(int, int) -> int, y: int, n: int) -> int
    decreases n,
{
    if n <= 0 {
        0
    } else {
        row_total(f, y, n - 1) + f(n - 1, y)
    }
}

/// The sum of `f(x, y)` over `x < n`, `y < m`, row by row.
pub open spec fn grid_total(f: spec_fn(int, int) -> int, m: int, n: int) -> int
    decreases m,
{
    if m <= 0 {
        0
    } else {
        grid_total(f, m - 1, n) + row_total(f, m - 1, n)
    }
}

proof fn lemma_grid_total_column(f: spec_fn(int, int) -> int, m: int, n: int)
    requires
        m >= 0,
        n >= 0,
    ensures
        grid_total(f, m, n + 1) == grid_total(f, m, n) + row_total(|y: int, x: int| f(x, y), n, m),
    decreases m,
{
    if m > 0 {
        lemma_grid_total_column(f, m - 1, n);
    }
}

proof fn lemma_grid_total_swap(f: spec_fn(int, int) -> int, m: int, n: int)
    requires
        m >= 0,
        n >= 0,
    ensures
        grid_total(f, m, n) == grid_total(|x: int, y: int| f(y, x), n, m),
    decreases n,
{
    let g = |x: int, y: int| f(y, x);
    if n == 0 {
        lemma_grid_total_zero(f, m);
    } else {
        lemma_grid_total_swap(f, m, n - 1);
        lemma_grid_total_column(f, m, n - 1);
        assert(row_total(|y: int, x: int| f(x, y), n - 1, m) == row_total(g, n - 1, m)) by {
            lemma_row_total_ext(|y: int, x: int| f(x, y), g, n - 1, m);
        }
    }
}

proof fn lemma_grid_total_zero(f: spec_fn(int, int) -> int, m: int)
    requires
        m >= 0,
    ensures
        grid_total(f, m, 0) == 0,
    decreases m,
{
    if m > 0 {
        lemma_grid_total_zero(f, m - 1);
    }
}

proof fn lemma_row_total_ext(f: spec_fn(int, int) -> int, g: spec_fn(int, int) -> int, y: int, n: int)
    requires
        forall|x: int| 0 <= x < n ==> #[trigger] f(x, y) == g(x, y),
    ensures
        row_total(f, y, n) == row_total(g, y, n),
    decreases n,
{
    if n > 0 {
        lemma_row_total_ext(f, g, y, n - 1);
    }
}

proof fn lemma_grid_total_ext(f: spec_fn(int, int) -> int, g: spec_fn(int, int) -> int, m: int, n: int)
    requires
        forall|x: int, y: int| 0 <= x < n && 0 <= y < m ==> #[trigger] f(x, y) == g(x, y),
    ensures
        grid_total(f, m, n) == grid_total(g, m, n),
    decreases m,
{
    if m > 0 {
        lemma_grid_total_ext(f, g, m - 1, n);
        lemma_row_total_ext(f, g, m - 1, n);
    }
}

proof fn lemma_blocks_row_total(sz: int, g: Seq<bool>, y: int, n: int)
    ensures
        grid_blocks_in_row(sz, g, y, n) == row_total(|x: int, y: int| if grid_block_at(sz, g, x, y) { 1int } else { 0int }, y, n),
    decreases n,
{
    if n > 0 {
        lemma_blocks_row_total(sz, g, y, n - 1);
    }
}

proof fn lemma_blocks_total(sz: int, g: Seq<bool>, m: int)
    ensures
        grid_blocks(sz, g, m) == grid_total(|x: int, y: int| if grid_block_at(sz, g, x, y) { 1int } else { 0int }, m, sz - 1),
    decreases m,
{
    if m > 0 {
        lemma_blocks_total(sz, g, m - 1);
        lemma_blocks_row_total(sz, g, m - 1, sz - 1);
    }
}

/// Finder-like patterns starting at `(x, y)`, across and down.
pub open spec fn finders_at(sz: int, g: Seq<bool>, x: int, y: int) -> int {
    (if grid_finder_at(sz, g, x, y, true) { 1int } else { 0int }) + (if grid_finder_at(sz, g, x, y, false) {
        1int
    } else {
        0int
    })
}

proof fn lemma_finders_total(sz: int, g: Seq<bool>, m: int)
    ensures
        grid_finders(sz, g, m) == grid_total(|x: int, y: int| finders_at(sz, g, x, y), m, sz),
    decreases m,
{
    if m > 0 {
        lemma_finders_total(sz, g, m - 1);
        lemma_finders_row(sz, g, m - 1, sz);
    }
}

proof fn lemma_finders_row(sz: int, g: Seq<bool>, y: int, n: int)
    ensures
        grid_finders_in_row(sz, g, y, n) == row_total(|x: int, y: int| finders_at(sz, g, x, y), y, n),
    decreases n,
{
    if n > 0 {
        lemma_finders_row(sz, g, y, n - 1);
    }
}

proof fn lemma_lines_transposed(sz: int, a: Seq<bool>, b: Seq<bool>, n: int, horizontal: bool)
    requires
        transposed(sz, a, b),
        0 <= n <= sz,
    ensures
        grid_lines_points(sz, b, n, horizontal) == grid_lines_points(sz, a, n, !horizontal),
    decreases n,
{
    if n > 0 {
        lemma_lines_transposed(sz, a, b, n - 1, horizontal);
        assert(grid_line(sz, b, n - 1, horizontal) =~= grid_line(sz, a, n - 1, !horizontal));
    }
}

proof fn lemma_dark_count_take(g: Seq<bool>, k: int)
    requires
        0 <= k < g.len(),
    ensures
        dark_count(g.take(k + 1)) == dark_count(g.take(k)) + if g[k] { 1int } else { 0int },
{
    assert(g.take(k + 1).drop_last() =~= g.take(k));
}

proof fn lemma_dark_count_rows(sz: int, g: Seq<bool>, y: int, x: int)
    requires
        sz >= 0,
        g.len() == sz * sz,
        0 <= y < sz,
        0 <= x <= sz,
    ensures
        dark_count(g.take(y * sz + x)) == dark_count(g.take(y * sz)) + row_total(
            |x: int, y: int| if gdark(sz, g, x, y) { 1int } else { 0int },
            y,
            x,
        ),
    decreases x,
{
    if x > 0 {
        lemma_dark_count_rows(sz, g, y, x - 1);
        assert(y * sz + x <= sz * sz) by (nonlinear_arith)
            requires
                0 <= y < sz,
                0 < x <= sz,
        ;
        lemma_dark_count_take(g, y * sz + x - 1);
    }
}

proof fn lemma_dark_count_total(sz: int, g: Seq<bool>, m: int)
    requires
        sz >= 0,
        g.len() == sz * sz,
        0 <= m <= sz,
    ensures
        dark_count(g.take(m * sz)) == grid_total(|x: int, y: int| if gdark(sz, g, x, y) { 1int } else { 0int }, m, sz),
    decreases m,
{
    if m == 0 {
        assert(g.take(0) =~= Seq::<bool>::empty());
    } else {
        lemma_dark_count_total(sz, g, m - 1);
        lemma_dark_count_rows(sz, g, m - 1, sz);
        assert((m - 1) * sz + sz == m * sz) by (nonlinear_arith);
    }
}

/// The mask penalty scores rows and columns alike, so transposing the grid
/// leaves it unchanged.
pub proof fn lemma_penalty_transpose(sz: int, a: Seq<bool>, b: Seq<bool>)
    requires
        transposed(sz, a, b),
    ensures
        grid_penalty(sz, a) == grid_penalty(sz, b),
{
    lemma_lines_transposed(sz, a, b, sz, true);
    lemma_lines_transposed(sz, a, b, sz, false);
    // One-color 2x2 blocks.
    let ba = |x: int, y: int| if grid_block_at(sz, a, x, y) { 1int } else { 0int };
    let bb = |x: int, y: int| if grid_block_at(sz, b, x, y) { 1int } else { 0int };
    lemma_blocks_total(sz, a, sz - 1);
    lemma_blocks_total(sz, b, sz - 1);
    if sz >= 1 {
        assert forall|x: int, y: int| 0 <= x < sz - 1 && 0 <= y < sz - 1 implies #[trigger] bb(x, y) == (|x: int, y: int| ba(y, x))(x, y) by {
            assert(gdark(sz, b, x, y) == gdark(sz, a, y, x));
            assert(gdark(sz, b, x + 1, y) == gdark(sz, a, y, x + 1));
            assert(gdark(sz, b, x, y + 1) == gdark(sz, a, y + 1, x));
            assert(gdark(sz, b, x + 1, y + 1) == gdark(sz, a, y + 1, x + 1));
        }
        lemma_grid_total_ext(bb, |x: int, y: int| ba(y, x), sz - 1, sz - 1);
        lemma_grid_total_swap(ba, sz - 1, sz - 1);
    } else {
        assert(grid_blocks(sz, a, sz - 1) == 0);
        assert(grid_blocks(sz, b, sz - 1) == 0);
    }
    // Finder-like patterns.
    let fa = |x: int, y: int| finders_at(sz, a, x, y);
    let fb = |x: int, y: int| finders_at(sz, b, x, y);
    lemma_finders_total(sz, a, sz);
    lemma_finders_total(sz, b, sz);
    assert forall|x: int, y: int| 0 <= x < sz && 0 <= y < sz implies #[trigger] fb(x, y) == (|x: int, y: int| fa(y, x))(x, y) by {
        if x + 11 <= sz {
            assert(Seq::new(11, |k: int| gdark(sz, b, x + k, y)) =~= Seq::new(11, |k: int| gdark(sz, a, y, x + k)));
        }
        if y + 11 <= sz {
            assert(Seq::new(11, |k: int| gdark(sz, b, x, y + k)) =~= Seq::new(11, |k: int| gdark(sz, a, y + k, x)));
        }
    }
    lemma_grid_total_ext(fb, |x: int, y: int| fa(y, x), sz, sz);
    lemma_grid_total_swap(fa, sz, sz);
    // Dark modules.
    let da = |x: int, y: int| if gdark(sz, a, x, y) { 1int } else { 0int };
    let db = |x: int, y: int| if gdark(sz, b, x, y) { 1int } else { 0int };
    lemma_dark_count_total(sz, a, sz);
    lemma_dark_count_total(sz, b, sz);
    assert(a.take(sz * sz) =~= a);
    assert(b.take(sz * sz) =~= b);
    assert forall|x: int, y: int| 0 <= x < sz && 0 <= y < sz implies #[trigger] db(x, y) == (|x: int, y: int| da(y, x))(x, y) by {
        assert(gdark(sz, b, x, y) == gdark(sz, a, y, x));
    }
    lemma_grid_total_ext(db, |x: int, y: int| da(y, x), sz, sz);
    lemma_grid_total_swap(da, sz, sz);
}

/// The length of the same-color run that ends at `i`.
pub open spec fn run_len(line: Seq<bool>, i: int) -> int
    decreases i,
{
    if i <= 0 || line[i] != line[i - 1] {
        1
    } else {
        1 + run_len(line, i - 1)
    }
}

/// Rule-1 points of the runs that end before `k`: a run of five or more
/// same-color modules scores three, plus one per module past five.
pub open spec fn run_points(line: Seq<bool>, k: int) -> int
    decreases k,
{
    if k <= 0 {
        0
    } else {
        let ends = k == line.len() || line[k - 1] != line[k];
        run_points(line, k - 1) + if ends && run_len(line, k - 1) >= 5 {
            run_len(line, k - 1) - 2
        } else {
            0
        }
    }
}

/// The finder-like pattern dark-light-dark×3-light-dark then four light.
pub open spec fn finder_a() -> Seq<bool> {
    seq![true, false, true, true, true, false, true, false, false, false, false]
}

/// Its mirror: four light, then dark-light-dark×3-light-dark.
pub open spec fn finder_b() -> Seq<bool> {
    seq![false, false, false, false, true, false, true, true, true, false, true]
}

pub open spec fn finder_like(s: Seq<bool>) -> bool {
    s == finder_a() || s == finder_b()
}

/// How many modules of `g` are dark.
pub open spec fn dark_count(g: Seq<bool>) -> int
    decreases g.len(),
{
    if g.len() == 0 {
        0
    } else {
        dark_count(g.drop_last()) + if g.last() {
            1int
        } else {
            0int
        }
    }
}

/// Rule-4 points: ten per five percent the dark share strays from half
/// (rounded towards more points below half).
pub open spec fn balance_points(darks: int, total: int) -> int {
    let percent = darks * 100 / total;
    10 * if percent >= 50 {
        (percent - 50) / 5
    } else {
        (50 - percent + 4) / 5
    }
}

/// A square grid of dark (`true`) and light modules, with the function
/// modules (finders, timing, alignment, format) marked in `func`.
pub struct Canvas {
    pub size: usize,
    pub grid: Vec<bool>,
    pub func: Vec<bool>,
}

impl Canvas {
    pub open spec fn wf(&self) -> bool {
        &&& 21 <= self.size <= 33
        &&& self.grid@.len() == self.size * self.size
        &&& self.func@.len() == self.size * self.size
    }

    /// The module at `(x, y)`.
    pub open spec fn dark(&self, x: int, y: int) -> bool {
        self.grid@[y * self.size + x]
    }

    /// Whether `(x, y)` is a function module.
    pub open spec fn is_function(&self, x: int, y: int) -> bool {
        self.func@[y * self.size + x]
    }

    /// An all-light canvas for `version` (1–4): `17 + 4 * version` modules a
    /// side, nothing reserved.
    pub fn new(version: usize) -> (c: Canvas)
        requires
            1 <= version <= 4,
        ensures
            c.wf(),
            c.size == 17 + 4 * version,
            forall|k: int| 0 <= k < c.grid@.len() ==> !#[trigger] c.grid@[k] && !c.func@[k],
    {
        let size = 17 + 4 * version;
        proof {
            assert(size * size <= 1089) by (nonlinear_arith)
                requires
                    size <= 33,
            ;
        }
        let n = size * size;
        let mut grid: Vec<bool> = Vec::new();
        let mut func: Vec<bool> = Vec::new();
        let mut k: usize = 0;
        while k < n
            invariant
                k <= n,
                grid@.len() == k,
                func@.len() == k,
                forall|j: int| 0 <= j < k ==> !#[trigger] grid@[j],
                forall|j: int| 0 <= j < k ==> !#[trigger] func@[j],
            decreases n - k,
        {
            grid.push(false);
            func.push(false);
            k = k + 1;
        }
        Canvas { size, grid, func }
    }

    /// Set a function module, ignoring coordinates off the canvas.
    pub fn set_fn(&mut self, x: i32, y: i32, dark: bool)
        requires
            old(self).wf(),
        ensures
            final(self).wf(),
            final(self).size == old(self).size,
            (0 <= x < old(self).size && 0 <= y < old(self).size) ==> {
                &&& final(self).grid@ == old(self).grid@.update(y * old(self).size + x, dark)
                &&& final(self).func@ == old(self).func@.update(y * old(self).size + x, true)
            },
            !(0 <= x < old(self).size && 0 <= y < old(self).size) ==> final(self).grid@ == old(self).grid@
                && final(self).func@ == old(self).func@,
            forall|px: int, py: int|
                #![trigger final(self).dark(px, py)]
                #![trigger final(self).is_function(px, py)]
                0 <= px < old(self).size && 0 <= py < old(self).size ==> {
                    &&& final(self).dark(px, py) == if px == x && py == y {
                        dark
                    } else {
                        old(self).dark(px, py)
                    }
                    &&& final(self).is_function(px, py) == if px == x && py == y {
                        true
                    } else {
                        old(self).is_function(px, py)
                    }
                },
    {
        if x < 0 || y < 0 || x as usize >= self.size || y as usize >= self.size {
            return;
        }
        proof {
            lemma_cell_index(x as int, y as int, self.size as int);
        }
        let ghost prev = *self;
        let i = y as usize * self.size + x as usize;
        self.grid.set(i, dark);
        self.func.set(i, true);
        proof {
            assert forall|px: int, py: int| 0 <= px < prev.size && 0 <= py < prev.size && (px != x || py != y) implies
                self.dark(px, py) == prev.dark(px, py) && self.is_function(px, py) == prev.is_function(px, py) by {
                lemma_distinct_cells(px, py, x as int, y as int, prev.size as int);
                lemma_cell_index(px, py, prev.size as int);
            }
        }
    }

    /// Whether `(x, y)` is a function module.
    pub fn is_func(&self, x: usize, y: usize) -> (b: bool)
        requires
            self.wf(),
            x < self.size,
            y < self.size,
        ensures
            b == self.is_function(x as int, y as int),
    {
        proof {
            lemma_cell_index(x as int, y as int, self.size as int);
        }
        self.func[y * self.size + x]
    }

    /// `self` is `prev` with every module where `f` answers `Some(v)` set to
    /// `v` and marked as a function module, and every other module as it was.
    pub open spec fn overlays(&self, prev: Canvas, f: spec_fn(int, int) -> Option<bool>) -> bool {
        &&& self.size == prev.size
        &&& forall|x: int, y: int|
            #![trigger self.dark(x, y)]
            #![trigger self.is_function(x, y)]
            0 <= x < self.size && 0 <= y < self.size ==> match f(x, y) {
                Some(v) => self.dark(x, y) == v && self.is_function(x, y),
                None => self.dark(x, y) == prev.dark(x, y) && self.is_function(x, y) == prev.is_function(x, y),
            }
    }

    /// A finder pattern centered at `(cx, cy)`, with its separator ring.
    fn draw_finder(&mut self, cx: i32, cy: i32)
        requires
            old(self).wf(),
            -100 <= cx <= 100,
            -100 <= cy <= 100,
        ensures
            final(self).wf(),
            final(self).overlays(*old(self), |x: int, y: int| finder_module(cx as int, cy as int, x, y)),
    {
        let ghost c0 = *self;
        let mut dy: i32 = -4;
        while dy <= 4
            invariant
                self.wf(),
                self.size == c0.size,
                -4 <= dy <= 5,
                -100 <= cx <= 100,
                -100 <= cy <= 100,
                forall|x: int, y: int|
                    #![trigger self.dark(x, y)]
                    #![trigger self.is_function(x, y)]
                    0 <= x < self.size && 0 <= y < self.size ==> if square_done(x - cx, y - cy, -4, dy as int, 4) {
                        self.dark(x, y) == finder_value(x - cx, y - cy) && self.is_function(x, y)
                    } else {
                        self.dark(x, y) == c0.dark(x, y) && self.is_function(x, y) == c0.is_function(x, y)
                    },
            decreases 5 - dy,
        {
            let mut dx: i32 = -4;
            while dx <= 4
                invariant
                    self.wf(),
                    self.size == c0.size,
                    -4 <= dx <= 5,
                    -4 <= dy <= 4,
                    -100 <= cx <= 100,
                    -100 <= cy <= 100,
                    forall|x: int, y: int|
                        #![trigger self.dark(x, y)]
                        #![trigger self.is_function(x, y)]
                        0 <= x < self.size && 0 <= y < self.size ==> if square_done(x - cx, y - cy, dx as int, dy as int, 4) {
                            self.dark(x, y) == finder_value(x - cx, y - cy) && self.is_function(x, y)
                        } else {
                            self.dark(x, y) == c0.dark(x, y) && self.is_function(x, y) == c0.is_function(x, y)
                        },
                decreases 5 - dx,
            {
                let ax = if dx < 0 { -dx } else { dx };
                let ay = if dy < 0 { -dy } else { dy };
                let dist = if ax > ay { ax } else { ay };
                let ghost prev = *self;
                self.set_fn(cx + dx, cy + dy, dist != 2 && dist != 4);
                proof {
                    assert forall|x: int, y: int|
                        #![trigger self.dark(x, y)]
                        0 <= x < self.size && 0 <= y < self.size implies (if square_done(
                        x - cx,
                        y - cy,
                        dx + 1,
                        dy as int,
                        4,
                    ) {
                        self.dark(x, y) == finder_value(x - cx, y - cy) && self.is_function(x, y)
                    } else {
                        self.dark(x, y) == c0.dark(x, y) && self.is_function(x, y) == c0.is_function(x, y)
                    }) by {
                        assert(self.dark(x, y) == prev.dark(x, y) || (x == cx + dx && y == cy + dy));
                        assert(prev.dark(x, y) == prev.dark(x, y));
                        assert(prev.is_function(x, y) == prev.is_function(x, y));
                    }
                }
                dx = dx + 1;
            }
            dy = dy + 1;
        }
        proof {
            assert forall|x: int, y: int|
                #![trigger self.dark(x, y)]
                0 <= x < self.size && 0 <= y < self.size implies match finder_module(
                cx as int,
                cy as int,
                x,
                y,
            ) {
                Some(v) => self.dark(x, y) == v && self.is_function(x, y),
                None => self.dark(x, y) == c0.dark(x, y) && self.is_function(x, y) == c0.is_function(x, y),
            } by {
                assert(self.dark(x, y) == self.dark(x, y));
            }
        }
    }

    /// An alignment pattern centered at `(cx, cy)`.
    fn draw_alignment(&mut self, cx: i32, cy: i32)
        requires
            old(self).wf(),
            -100 <= cx <= 100,
            -100 <= cy <= 100,
        ensures
            final(self).wf(),
            final(self).overlays(*old(self), |x: int, y: int| alignment_module(cx as int, cy as int, x, y)),
    {
        let ghost c0 = *self;
        let mut dy: i32 = -2;
        while dy <= 2
            invariant
                self.wf(),
                self.size == c0.size,
                -2 <= dy <= 3,
                -100 <= cx <= 100,
                -100 <= cy <= 100,
                forall|x: int, y: int|
                    #![trigger self.dark(x, y)]
                    #![trigger self.is_function(x, y)]
                    0 <= x < self.size && 0 <= y < self.size ==> if square_done(x - cx, y - cy, -2, dy as int, 2) {
                        self.dark(x, y) == (cheb(x - cx, y - cy) != 1) && self.is_function(x, y)
                    } else {
                        self.dark(x, y) == c0.dark(x, y) && self.is_function(x, y) == c0.is_function(x, y)
                    },
            decreases 3 - dy,
        {
            let mut dx: i32 = -2;
            while dx <= 2
                invariant
                    self.wf(),
                    self.size == c0.size,
                    -2 <= dx <= 3,
                    -2 <= dy <= 2,
                    -100 <= cx <= 100,
                    -100 <= cy <= 100,
                    forall|x: int, y: int|
                        #![trigger self.dark(x, y)]
                        #![trigger self.is_function(x, y)]
                        0 <= x < self.size && 0 <= y < self.size ==> if square_done(x - cx, y - cy, dx as int, dy as int, 2) {
                            self.dark(x, y) == (cheb(x - cx, y - cy) != 1) && self.is_function(x, y)
                        } else {
                            self.dark(x, y) == c0.dark(x, y) && self.is_function(x, y) == c0.is_function(x, y)
                        },
                decreases 3 - dx,
            {
                let ax = if dx < 0 { -dx } else { dx };
                let ay = if dy < 0 { -dy } else { dy };
                let dist = if ax > ay { ax } else { ay };
                let ghost prev = *self;
                self.set_fn(cx + dx, cy + dy, dist != 1);
                proof {
                    assert forall|x: int, y: int|
                        #![trigger self.dark(x, y)]
                        0 <= x < self.size && 0 <= y < self.size implies (if square_done(
                        x - cx,
                        y - cy,
                        dx + 1,
                        dy as int,
                        2,
                    ) {
                        self.dark(x, y) == (cheb(x - cx, y - cy) != 1) && self.is_function(x, y)
                    } else {
                        self.dark(x, y) == c0.dark(x, y) && self.is_function(x, y) == c0.is_function(x, y)
                    }) by {
                        assert(self.dark(x, y) == prev.dark(x, y) || (x == cx + dx && y == cy + dy));
                        assert(prev.dark(x, y) == prev.dark(x, y));
                        assert(prev.is_function(x, y) == prev.is_function(x, y));
                    }
                }
                dx = dx + 1;
            }
            dy = dy + 1;
        }
        proof {
            assert forall|x: int, y: int|
                #![trigger self.dark(x, y)]
                0 <= x < self.size && 0 <= y < self.size implies match alignment_module(
                cx as int,
                cy as int,
                x,
                y,
            ) {
                Some(v) => self.dark(x, y) == v && self.is_function(x, y),
                None => self.dark(x, y) == c0.dark(x, y) && self.is_function(x, y) == c0.is_function(x, y),
            } by {
                assert(self.dark(x, y) == self.dark(x, y));
            }
        }
    }

    /// Both copies of the 15-bit format information for `ecc` and `mask`,
    /// plus the dark module.
    pub fn draw_format(&mut self, ecc: QrEcc, mask: u8)
        requires
            old(self).wf(),
            mask < 8,
        ensures
            final(self).wf(),
            final(self).overlays(
                *old(self),
                |x: int, y: int| format_written(old(self).size as int, format_word(ecc, mask), 31, x, y),
            ),
    {
        let ghost c0 = *self;
        let fb = ecc.format_bits();
        let m32 = mask as u32;
        let data: u32 = (fb << 3u32) | m32;
        proof {
            assert(data < 32) by (bit_vector)
                requires
                    data == (fb << 3u32) | m32,
                    fb < 4,
                    m32 < 8,
            ;
        }
        let mut rem: u32 = data;
        let mut r: usize = 0;
        while r < 10
            invariant
                r <= 10,
                rem < 2048,
                rem == bch_rem(data, r as nat),
            decreases 10 - r,
        {
            let shifted: u32 = rem << 1u32;
            let high: u32 = rem >> 9u32;
            proof {
                assert(shifted < 4096 && high < 4) by (bit_vector)
                    requires
                        rem < 2048,
                        shifted == rem << 1u32,
                        high == rem >> 9u32,
                ;
            }
            let product: u32 = high * 0x537;
            let next = shifted ^ product;
            proof {
                assert(next < 2048) by (bit_vector)
                    requires
                        rem < 2048,
                        shifted == rem << 1u32,
                        high == rem >> 9u32,
                        product == high * 0x537u32,
                        next == shifted ^ product,
                ;
                assert(next == bch_step(rem)) by (bit_vector)
                    requires
                        rem < 2048,
                        shifted == rem << 1u32,
                        high == rem >> 9u32,
                        product == high * 0x537u32,
                        next == shifted ^ product,
                ;
            }
            rem = next;
            r = r + 1;
        }
        let bits: u32 = ((data << 10u32) | rem) ^ 0x5412;
        let ghost word = bits;
        proof {
            assert(word == format_word(ecc, mask));
            assert forall|x: int, y: int|
                #![trigger self.dark(x, y)]
                0 <= x < self.size && 0 <= y < self.size implies match format_written(self.size as int, word, 0, x, y) {
                Some(v) => self.dark(x, y) == v && self.is_function(x, y),
                None => self.dark(x, y) == c0.dark(x, y) && self.is_function(x, y) == c0.is_function(x, y),
            } by {}
        }
        let n = self.size as i32;
        let mut i: i32 = 0;
        while i <= 5
            invariant
                self.wf(),
                self.size == c0.size,
                n == self.size,
                word == format_word(ecc, mask),
                bits == word,
                0 <= i <= 6,
                self.overlays(c0, |x: int, y: int| format_written(n as int, word, i as int, x, y)),
            decreases 6 - i,
        {
            let ghost prev = *self;
            self.set_fn(8, i, getbit(bits, i as u32));
            proof {
                assert forall|x: int, y: int|
                    #![trigger self.dark(x, y)]
                    0 <= x < self.size && 0 <= y < self.size implies match format_written(n as int, word, i as int + 1, x, y) {
                    Some(v) => self.dark(x, y) == v && self.is_function(x, y),
                    None => self.dark(x, y) == c0.dark(x, y) && self.is_function(x, y) == c0.is_function(x, y),
                } by {
                    assert(prev.dark(x, y) == prev.dark(x, y));
                    assert(prev.is_function(x, y) == prev.is_function(x, y));
                }
            }
            i = i + 1;
        }
        let ghost prev = *self;
        self.set_fn(8, 7, getbit(bits, 6));
        proof {
            assert forall|x: int, y: int|
                #![trigger self.dark(x, y)]
                0 <= x < self.size && 0 <= y < self.size implies match format_written(n as int, word, 6int + 1, x, y) {
                Some(v) => self.dark(x, y) == v && self.is_function(x, y),
                None => self.dark(x, y) == c0.dark(x, y) && self.is_function(x, y) == c0.is_function(x, y),
            } by {
                assert(prev.dark(x, y) == prev.dark(x, y));
                assert(prev.is_function(x, y) == prev.is_function(x, y));
            }
        }
        let ghost prev = *self;
        self.set_fn(8, 8, getbit(bits, 7));
        proof {
            assert forall|x: int, y: int|
                #![trigger self.dark(x, y)]
                0 <= x < self.size && 0 <= y < self.size implies match format_written(n as int, word, 7int + 1, x, y) {
                Some(v) => self.dark(x, y) == v && self.is_function(x, y),
                None => self.dark(x, y) == c0.dark(x, y) && self.is_function(x, y) == c0.is_function(x, y),
            } by {
                assert(prev.dark(x, y) == prev.dark(x, y));
                assert(prev.is_function(x, y) == prev.is_function(x, y));
            }
        }
        let ghost prev = *self;
        self.set_fn(7, 8, getbit(bits, 8));
        proof {
            assert forall|x: int, y: int|
                #![trigger self.dark(x, y)]
                0 <= x < self.size && 0 <= y < self.size implies match format_written(n as int, word, 8int + 1, x, y) {
                Some(v) => self.dark(x, y) == v && self.is_function(x, y),
                None => self.dark(x, y) == c0.dark(x, y) && self.is_function(x, y) == c0.is_function(x, y),
            } by {
                assert(prev.dark(x, y) == prev.dark(x, y));
                assert(prev.is_function(x, y) == prev.is_function(x, y));
            }
        }
        let mut i: i32 = 9;
        while i < 15
            invariant
                self.wf(),
                self.size == c0.size,
                n == self.size,
                word == format_word(ecc, mask),
                bits == word,
                9 <= i <= 15,
                self.overlays(c0, |x: int, y: int| format_written(n as int, word, i as int, x, y)),
            decreases 15 - i,
        {
            let ghost prev = *self;
            self.set_fn(14 - i, 8, getbit(bits, i as u32));
            proof {
                assert forall|x: int, y: int|
                    #![trigger self.dark(x, y)]
                    0 <= x < self.size && 0 <= y < self.size implies match format_written(n as int, word, i as int + 1, x, y) {
                    Some(v) => self.dark(x, y) == v && self.is_function(x, y),
                    None => self.dark(x, y) == c0.dark(x, y) && self.is_function(x, y) == c0.is_function(x, y),
                } by {
                    assert(prev.dark(x, y) == prev.dark(x, y));
                    assert(prev.is_function(x, y) == prev.is_function(x, y));
                }
            }
            i = i + 1;
        }
        let mut i: i32 = 0;
        while i < 8
            invariant
                self.wf(),
                self.size == c0.size,
                n == self.size,
                word == format_word(ecc, mask),
                bits == word,
                0 <= i <= 8,
                self.overlays(c0, |x: int, y: int| format_written(n as int, word, 15 + i, x, y)),
            decreases 8 - i,
        {
            let ghost prev = *self;
            self.set_fn(n - 1 - i, 8, getbit(bits, i as u32));
            proof {
                assert forall|x: int, y: int|
                    #![trigger self.dark(x, y)]
                    0 <= x < self.size && 0 <= y < self.size implies match format_written(n as int, word, 15 + i + 1, x, y) {
                    Some(v) => self.dark(x, y) == v && self.is_function(x, y),
                    None => self.dark(x, y) == c0.dark(x, y) && self.is_function(x, y) == c0.is_function(x, y),
                } by {
                    assert(prev.dark(x, y) == prev.dark(x, y));
                    assert(prev.is_function(x, y) == prev.is_function(x, y));
                }
            }
            i = i + 1;
        }
        let mut i: i32 = 8;
        while i < 15
            invariant
                self.wf(),
                self.size == c0.size,
                n == self.size,
                word == format_word(ecc, mask),
                bits == word,
                8 <= i <= 15,
                self.overlays(c0, |x: int, y: int| format_written(n as int, word, 15 + i, x, y)),
            decreases 15 - i,
        {
            let ghost prev = *self;
            self.set_fn(8, n - 15 + i, getbit(bits, i as u32));
            proof {
                assert forall|x: int, y: int|
                    #![trigger self.dark(x, y)]
                    0 <= x < self.size && 0 <= y < self.size implies match format_written(n as int, word, 15 + i + 1, x, y) {
                    Some(v) => self.dark(x, y) == v && self.is_function(x, y),
                    None => self.dark(x, y) == c0.dark(x, y) && self.is_function(x, y) == c0.is_function(x, y),
                } by {
                    assert(prev.dark(x, y) == prev.dark(x, y));
                    assert(prev.is_function(x, y) == prev.is_function(x, y));
                }
            }
            i = i + 1;
        }
        let ghost prev = *self;
        self.set_fn(8, n - 8, true);
        proof {
            assert forall|x: int, y: int|
                #![trigger self.dark(x, y)]
                0 <= x < self.size && 0 <= y < self.size implies match format_written(n as int, word, 30int + 1, x, y) {
                Some(v) => self.dark(x, y) == v && self.is_function(x, y),
                None => self.dark(x, y) == c0.dark(x, y) && self.is_function(x, y) == c0.is_function(x, y),
            } by {
                assert(prev.dark(x, y) == prev.dark(x, y));
                assert(prev.is_function(x, y) == prev.is_function(x, y));
            }
        }
    }

    /// Timing patterns, the three finders, the alignment pattern (versions
    /// 2–4), and reserved format modules.
    pub fn draw_function_patterns(&mut self, version: usize)
        requires
            old(self).wf(),
        ensures
            final(self).wf(),
            final(self).overlays(
                *old(self),
                |x: int, y: int| function_module(version as int, old(self).size as int, x, y),
            ),
    {
        let ghost c0 = *self;
        let n = self.size as i32;
        proof {
            assert forall|x: int, y: int|
                #![trigger self.dark(x, y)]
                0 <= x < self.size && 0 <= y < self.size implies match timing_done(0, x, y) {
                Some(v) => self.dark(x, y) == v && self.is_function(x, y),
                None => self.dark(x, y) == c0.dark(x, y) && self.is_function(x, y) == c0.is_function(x, y),
            } by {}
        }
        let mut i: usize = 0;
        while i < self.size
            invariant
                self.wf(),
                self.size == c0.size,
                i <= self.size,
                self.overlays(c0, |x: int, y: int| timing_done(i as int, x, y)),
            decreases self.size - i,
        {
            let dark = i % 2 == 0;
            let ghost p1 = *self;
            self.set_fn(6, i as i32, dark);
            let ghost p2 = *self;
            self.set_fn(i as i32, 6, dark);
            proof {
                assert forall|x: int, y: int|
                    #![trigger self.dark(x, y)]
                    0 <= x < self.size && 0 <= y < self.size implies match timing_done(i + 1, x, y) {
                    Some(v) => self.dark(x, y) == v && self.is_function(x, y),
                    None => self.dark(x, y) == c0.dark(x, y) && self.is_function(x, y) == c0.is_function(x, y),
                } by {
                    assert(p2.dark(x, y) == p2.dark(x, y));
                    assert(p2.is_function(x, y) == p2.is_function(x, y));
                    assert(p1.dark(x, y) == p1.dark(x, y));
                    assert(p1.is_function(x, y) == p1.is_function(x, y));
                }
            }
            i = i + 1;
        }
        let ghost t = *self;
        proof {
            assert forall|x: int, y: int|
                #![trigger self.dark(x, y)]
                0 <= x < self.size && 0 <= y < self.size implies match timing_module(x, y) {
                Some(v) => self.dark(x, y) == v && self.is_function(x, y),
                None => self.dark(x, y) == c0.dark(x, y) && self.is_function(x, y) == c0.is_function(x, y),
            } by {
                assert(self.dark(x, y) == self.dark(x, y));
            }
        }
        self.draw_finder(3, 3);
        let ghost f1 = *self;
        proof {
            lemma_overlay_chain(c0, t, f1, |x: int, y: int| timing_module(x, y), |x: int, y: int| finder_module(3, 3, x, y));
        }
        self.draw_finder(n - 4, 3);
        let ghost f2 = *self;
        proof {
            lemma_overlay_chain(
                c0,
                f1,
                f2,
                |x: int, y: int| over(finder_module(3, 3, x, y), timing_module(x, y)),
                |x: int, y: int| finder_module(n - 4, 3, x, y),
            );
        }
        self.draw_finder(3, n - 4);
        let ghost f3 = *self;
        proof {
            lemma_overlay_chain(
                c0,
                f2,
                f3,
                |x: int, y: int| over(finder_module(n - 4, 3, x, y), over(finder_module(3, 3, x, y), timing_module(x, y))),
                |x: int, y: int| finder_module(3, n - 4, x, y),
            );
        }
        if version >= 2 {
            let c = n - 7;
            self.draw_alignment(c, c);
        }
        let ghost al = *self;
        proof {
            lemma_overlay_chain(
                c0,
                f3,
                al,
                |x: int, y: int| finders_and_timing(n as int, x, y),
                |x: int, y: int| if version >= 2 { alignment_module(n - 7, n - 7, x, y) } else { None },
            );
        }
        self.draw_format(QrEcc::Low, 0);
        proof {
            lemma_overlay_chain(
                c0,
                al,
                *self,
                |x: int, y: int| over(
                    if version >= 2 { alignment_module(n - 7, n - 7, x, y) } else { None },
                    finders_and_timing(n as int, x, y),
                ),
                |x: int, y: int| format_written(n as int, format_word(QrEcc::Low, 0), 31, x, y),
            );
        }
    }

    /// How many of the first `t` zigzag visits land on non-function modules.
    pub open spec fn rank(&self, t: int) -> int
        decreases t,
    {
        if t <= 0 {
            0
        } else {
            self.rank(t - 1) + if self.is_function(zz(self.size as int, t - 1).0, zz(self.size as int, t - 1).1) {
                0int
            } else {
                1int
            }
        }
    }

    /// What placing `data` leaves at `(x, y)`: the `k`th non-function module
    /// in zigzag order takes data bit `k` (most significant bit of each byte
    /// first) while bits last; every other module keeps `self`'s value.
    pub open spec fn placed(&self, data: Seq<u8>, x: int, y: int) -> bool {
        if x != 6 && !self.is_function(x, y) && self.rank(visit(self.size as int, x, y)) < data.len() * 8 {
            code_bit(data, self.rank(visit(self.size as int, x, y)))
        } else {
            self.dark(x, y)
        }
    }

    /// Lay the codeword bits into the non-function modules in the zigzag
    /// column-pair order. Function modules are never touched.
    fn draw_codewords(&mut self, data: &[u8])
        requires
            old(self).wf(),
            old(self).size % 4 == 1,
            data@.len() <= 4096,
        ensures
            final(self).wf(),
            final(self).size == old(self).size,
            final(self).func@ == old(self).func@,
            forall|k: int| 0 <= k < old(self).grid@.len() && old(self).func@[k] ==> #[trigger] final(self).grid@[k] == old(self).grid@[k],
            forall|x: int, y: int|
                0 <= x < old(self).size && 0 <= y < old(self).size ==> #[trigger] final(self).dark(x, y) == old(
                    self,
                ).placed(data@, x, y),
    {
        let ghost c0 = *self;
        let size = self.size as i32;
        let mut i: usize = 0;
        let total_bits = data.len() * 8;
        let mut right: i32 = size - 1;
        let ghost mut p: int = 0;
        proof {
            assert(0 * 2 * (size as int) == 0);
            assert forall|x: int, y: int|
                #![trigger self.dark(x, y)]
                0 <= x < size && 0 <= y < size implies self.dark(x, y) == if x != 6 && visit(size as int, x, y) < 0 * 2
                    * size {
                    c0.placed(data@, x, y)
                } else {
                    c0.dark(x, y)
                } by {
                lemma_visit_zz(size as int, x, y);
            }
        }
        while right >= 1
            invariant_except_break
                self.wf(),
                c0.wf(),
                self.size == c0.size,
                size == self.size,
                self.func@ == c0.func@,
                forall|k: int| 0 <= k < c0.grid@.len() && c0.func@[k] ==> #[trigger] self.grid@[k] == c0.grid@[k],
                total_bits == data@.len() * 8,
                data@.len() <= 4096,
                size % 4 == 1,
                0 <= p < pairs(size as int),
                right == pair_right(size as int, p) || (right == 6 && pair_right(size as int, p) == 5),
                i == if c0.rank(p * 2 * size) < total_bits { c0.rank(p * 2 * size) } else { total_bits as int },
                forall|x: int, y: int|
                    #![trigger self.dark(x, y)]
                    0 <= x < size && 0 <= y < size ==> self.dark(x, y) == if x != 6 && visit(size as int, x, y) < p * 2
                        * size {
                        c0.placed(data@, x, y)
                    } else {
                        c0.dark(x, y)
                    },
            ensures
                self.wf(),
                self.size == c0.size,
                self.func@ == c0.func@,
                forall|k: int| 0 <= k < c0.grid@.len() && c0.func@[k] ==> #[trigger] self.grid@[k] == c0.grid@[k],
                forall|x: int, y: int|
                    #![trigger self.dark(x, y)]
                    0 <= x < size && 0 <= y < size ==> self.dark(x, y) == c0.placed(data@, x, y),
            decreases right + 2,
        {
            if right == 6 {
                right = 5;
            }
            let mut vert: i32 = 0;
            while vert < size
                invariant
                    self.wf(),
                    c0.wf(),
                    self.size == c0.size,
                    size == self.size,
                    self.func@ == c0.func@,
                    forall|k: int| 0 <= k < c0.grid@.len() && c0.func@[k] ==> #[trigger] self.grid@[k] == c0.grid@[k],
                    total_bits == data@.len() * 8,
                    data@.len() <= 4096,
                    size % 4 == 1,
                    0 <= p < pairs(size as int),
                    right == pair_right(size as int, p),
                    0 <= vert <= size,
                    i == if c0.rank(p * 2 * size + vert * 2) < total_bits {
                        c0.rank(p * 2 * size + vert * 2)
                    } else {
                        total_bits as int
                    },
                    forall|x: int, y: int|
                        #![trigger self.dark(x, y)]
                        0 <= x < size && 0 <= y < size ==> self.dark(x, y) == if x != 6 && visit(size as int, x, y) < p
                            * 2 * size + vert * 2 {
                            c0.placed(data@, x, y)
                        } else {
                            c0.dark(x, y)
                        },
                decreases size - vert,
            {
                let mut j: i32 = 0;
                while j < 2
                    invariant
                        self.wf(),
                        c0.wf(),
                        self.size == c0.size,
                        size == self.size,
                        self.func@ == c0.func@,
                        forall|k: int| 0 <= k < c0.grid@.len() && c0.func@[k] ==> #[trigger] self.grid@[k] == c0.grid@[k],
                        total_bits == data@.len() * 8,
                        data@.len() <= 4096,
                        size % 4 == 1,
                        0 <= p < pairs(size as int),
                        right == pair_right(size as int, p),
                        0 <= vert < size,
                        0 <= j <= 2,
                        i == if c0.rank(p * 2 * size + vert * 2 + j) < total_bits {
                            c0.rank(p * 2 * size + vert * 2 + j)
                        } else {
                            total_bits as int
                        },
                        forall|x: int, y: int|
                            #![trigger self.dark(x, y)]
                            0 <= x < size && 0 <= y < size ==> self.dark(x, y) == if x != 6 && visit(size as int, x, y)
                                < p * 2 * size + vert * 2 + j {
                                c0.placed(data@, x, y)
                            } else {
                                c0.dark(x, y)
                            },
                    decreases 2 - j,
                {
                    let ghost t = p * 2 * size + vert * 2 + j;
                    proof {
                        lemma_zz_visit(size as int, p, vert as int, j as int);
                        lemma_upward(right);
                    }
                    let x = (right - j) as usize;
                    let upward = (right + 1) & 2 == 0;
                    let y = (if upward { size - 1 - vert } else { vert }) as usize;
                    let ghost before = *self;
                    if !self.is_func(x, y) && i < total_bits {
                        proof {
                            lemma_cell_index(x as int, y as int, self.size as int);
                            assert(i / 8 < data@.len());
                        }
                        let byte = data[i / 8];
                        let idx = y * self.size + x;
                        let ghost prev = self.grid@;
                        let value = getbit(byte as u32, (7 - i % 8) as u32);
                        self.grid.set(idx, value);
                        proof {
                            assert(self.grid@ == prev.update(idx as int, value));
                            assert(!c0.func@[idx as int]);
                            assert forall|k: int| 0 <= k < c0.grid@.len() && c0.func@[k] implies #[trigger] self.grid@[k]
                                == c0.grid@[k] by {
                                assert(k != idx);
                                assert(self.grid@[k] == prev[k]);
                                assert(prev[k] == c0.grid@[k]);
                            }
                        }
                        i = i + 1;
                    }
                    proof {
                        assert forall|xx: int, yy: int|
                            #![trigger self.dark(xx, yy)]
                            0 <= xx < size && 0 <= yy < size implies self.dark(xx, yy) == if xx != 6 && visit(
                                size as int,
                                xx,
                                yy,
                            ) < t + 1 {
                            c0.placed(data@, xx, yy)
                        } else {
                            c0.dark(xx, yy)
                        } by {
                            lemma_visit_zz(size as int, xx, yy);
                            lemma_cell_index(xx, yy, size as int);
                            if xx != x as int || yy != y as int {
                                lemma_distinct_cells(xx, yy, x as int, y as int, size as int);
                                assert(self.dark(xx, yy) == before.dark(xx, yy));
                            }
                        }
                    }
                    j = j + 1;
                }
                vert = vert + 1;
            }
            if right < 2 {
                proof {
                    lemma_last_pair(size as int, p);
                    assert forall|x: int, y: int|
                        #![trigger self.dark(x, y)]
                        0 <= x < size && 0 <= y < size implies self.dark(x, y) == c0.placed(data@, x, y) by {
                        lemma_visit_zz(size as int, x, y);
                    }
                }
                break;
            }
            proof {
                lemma_next_pair(size as int, p);
            }
            right = right - 2;
            proof {
                p = p + 1;
            }
        }
    }

    /// Flip every non-function module that mask pattern `mask` selects.
    pub fn apply_mask(&mut self, mask: u8)
        requires
            old(self).wf(),
        ensures
            final(self).wf(),
            final(self).size == old(self).size,
            final(self).func@ == old(self).func@,
            forall|x: int, y: int|
                0 <= x < old(self).size && 0 <= y < old(self).size ==> #[trigger] final(self).dark(x, y) == if old(
                    self,
                ).is_function(x, y) {
                    old(self).dark(x, y)
                } else {
                    old(self).dark(x, y) != mask_flips(mask, x, y)
                },
    {
        let mut y: usize = 0;
        while y < self.size
            invariant
                self.wf(),
                self.size == old(self).size,
                self.func@ == old(self).func@,
                y <= self.size,
                forall|px: int, py: int|
                    0 <= px < self.size && 0 <= py < self.size ==> #[trigger] self.dark(px, py) == if py < y {
                        if old(self).is_function(px, py) {
                            old(self).dark(px, py)
                        } else {
                            old(self).dark(px, py) != mask_flips(mask, px, py)
                        }
                    } else {
                        old(self).dark(px, py)
                    },
            decreases self.size - y,
        {
            let mut x: usize = 0;
            while x < self.size
                invariant
                    self.wf(),
                    self.size == old(self).size,
                    self.func@ == old(self).func@,
                    y < self.size,
                    x <= self.size,
                    forall|px: int, py: int|
                        0 <= px < self.size && 0 <= py < self.size ==> #[trigger] self.dark(px, py) == if py < y || (py
                            == y && px < x) {
                            if old(self).is_function(px, py) {
                                old(self).dark(px, py)
                            } else {
                                old(self).dark(px, py) != mask_flips(mask, px, py)
                            }
                        } else {
                            old(self).dark(px, py)
                        },
                decreases self.size - x,
            {
                proof {
                    lemma_cell_index(x as int, y as int, self.size as int);
                }
                let ghost prev = self.grid@;
                let ghost before = *self;
                let flip = !self.is_func(x, y) && mask_condition(mask, x, y);
                if flip {
                    let idx = y * self.size + x;
                    let cur = self.grid[idx];
                    self.grid.set(idx, !cur);
                }
                proof {
                    let size = self.size as int;
                    assert forall|px: int, py: int| 0 <= px < self.size && 0 <= py < self.size implies #[trigger] self.dark(
                        px,
                        py,
                    ) == if py < y || (py == y && px < x + 1) {
                        if old(self).is_function(px, py) {
                            old(self).dark(px, py)
                        } else {
                            old(self).dark(px, py) != mask_flips(mask, px, py)
                        }
                    } else {
                        old(self).dark(px, py)
                    } by {
                        lemma_cell_index(px, py, size);
                        assert(before.dark(px, py) == prev[py * size + px]);
                        if px != x || py != y {
                            lemma_distinct_cells(px, py, x as int, y as int, size);
                            assert(self.grid@[py * size + px] == prev[py * size + px]);
                        }
                    }
                }
                x = x + 1;
            }
            y = y + 1;
        }
    }
}

proof fn lemma_distinct_cells(x1: int, y1: int, x2: int, y2: int, size: int)
    requires
        0 <= x1 < size,
        0 <= y1 < size,
        0 <= x2 < size,
        0 <= y2 < size,
        x1 != x2 || y1 != y2,
    ensures
        y1 * size + x1 != y2 * size + x2,
{
    if y1 == y2 {
    } else if y1 < y2 {
        assert(y1 * size + x1 < y2 * size + x2) by (nonlinear_arith)
            requires
                0 <= x1 < size,
                0 <= x2,
                y1 < y2,
        ;
    } else {
        assert(y2 * size + x2 < y1 * size + x1) by (nonlinear_arith)
            requires
                0 <= x2 < size,
                0 <= x1,
                y2 < y1,
        ;
    }
}

/// Whether mask pattern `mask` flips the module at `(x, y)`.
fn mask_condition(mask: u8, x: usize, y: usize) -> (b: bool)
    requires
        x < 64,
        y < 64,
    ensures
        b == mask_flips(mask, x as int, y as int),
{
    if mask == 0 {
        (x + y) % 2 == 0
    } else if mask == 1 {
        y % 2 == 0
    } else if mask == 2 {
        x % 3 == 0
    } else if mask == 3 {
        (x + y) % 3 == 0
    } else if mask == 4 {
        (x / 3 + y / 2) % 2 == 0
    } else if mask == 5 {
        proof {
            assert(x * y < 4096) by (nonlinear_arith)
                requires
                    x < 64,
                    y < 64,
            ;
        }
        (x * y) % 2 + (x * y) % 3 == 0
    } else if mask == 6 {
        proof {
            assert(x * y < 4096) by (nonlinear_arith)
                requires
                    x < 64,
                    y < 64,
            ;
        }
        ((x * y) % 2 + (x * y) % 3) % 2 == 0
    } else {
        proof {
            assert(x * y < 4096) by (nonlinear_arith)
                requires
                    x < 64,
                    y < 64,
            ;
        }
        ((x + y) % 2 + (x * y) % 3) % 2 == 0
    }
}

impl Canvas {
    /// An identical canvas.
    pub fn copy(&self) -> (c: Canvas)
        requires
            self.wf(),
        ensures
            c.wf(),
            c.size == self.size,
            c.grid@ == self.grid@,
            c.func@ == self.func@,
    {
        let mut grid: Vec<bool> = Vec::new();
        let mut func: Vec<bool> = Vec::new();
        let mut k: usize = 0;
        while k < self.grid.len()
            invariant
                self.wf(),
                k <= self.grid@.len(),
                grid@ == self.grid@.take(k as int),
                func@ == self.func@.take(k as int),
            decreases self.grid@.len() - k,
        {
            grid.push(self.grid[k]);
            func.push(self.func[k]);
            proof {
                assert(grid@ =~= self.grid@.take(k + 1));
                assert(func@ =~= self.func@.take(k + 1));
            }
            k = k + 1;
        }
        proof {
            assert(grid@ =~= self.grid@);
            assert(func@ =~= self.func@);
        }
        Canvas { size: self.size, grid, func }
    }

    fn module_at(&self, x: usize, y: usize) -> (b: bool)
        requires
            self.wf(),
            x < self.size,
            y < self.size,
        ensures
            b == self.dark(x as int, y as int),
    {
        proof {
            lemma_cell_index(x as int, y as int, self.size as int);
        }
        self.grid[y * self.size + x]
    }

    /// The mask penalty of this canvas (see [`grid_penalty`]).
    pub open spec fn spec_penalty(&self) -> int {
        grid_penalty(self.size as int, self.grid@)
    }

    /// Rule-1 points of row (`horizontal`) or column `i`.
    fn line_points(&self, i: usize, horizontal: bool) -> (p: u32)
        requires
            self.wf(),
            i < self.size,
        ensures
            p == run_points(grid_line(self.size as int, self.grid@, i as int, horizontal), self.size as int),
            p <= self.size,
    {
        let size = self.size;
        let ghost line = grid_line(self.size as int, self.grid@, i as int, horizontal);
        let mut p: u32 = 0;
        let mut run: u32 = 1;
        let mut last = if horizontal {
            self.module_at(0, i)
        } else {
            self.module_at(i, 0)
        };
        let mut j: usize = 1;
        while j < size
            invariant
                self.wf(),
                size == self.size,
                i < size,
                line == grid_line(self.size as int, self.grid@, i as int, horizontal),
                1 <= j <= size,
                run == run_len(line, j - 1),
                last == line[j - 1],
                p == run_points(line, j - 1),
                p + run <= j,
            decreases size - j,
        {
            let c = if horizontal {
                self.module_at(j, i)
            } else {
                self.module_at(i, j)
            };
            if c == last {
                run = run + 1;
            } else {
                if run >= 5 {
                    p = p + (3 + (run - 5));
                }
                run = 1;
                last = c;
            }
            j = j + 1;
        }
        if run >= 5 {
            p = p + (3 + (run - 5));
        }
        p
    }

    /// Rule 1 over every row and column.
    fn runs_points(&self) -> (p: u32)
        requires
            self.wf(),
        ensures
            p == grid_lines_points(self.size as int, self.grid@, self.size as int, true) + grid_lines_points(self.size as int, self.grid@, self.size as int, false),
            p <= 2178,
    {
        let size = self.size;
        let mut p: u32 = 0;
        let mut i: usize = 0;
        while i < size
            invariant
                self.wf(),
                size == self.size,
                i <= size,
                p == grid_lines_points(self.size as int, self.grid@, i as int, true) + grid_lines_points(self.size as int, self.grid@, i as int, false),
                p <= 66 * i,
            decreases size - i,
        {
            let a = self.line_points(i, true);
            let b = self.line_points(i, false);
            p = p + a + b;
            i = i + 1;
        }
        p
    }

    /// Rule 2: three points per one-color 2x2 block.
    fn blocks_points(&self) -> (p: u32)
        requires
            self.wf(),
        ensures
            p == 3 * grid_blocks(self.size as int, self.grid@, self.size - 1),
            p <= 3267,
    {
        let size = self.size;
        let mut p: u32 = 0;
        let mut y: usize = 0;
        while y + 1 < size
            invariant
                self.wf(),
                size == self.size,
                y < size,
                p == 3 * grid_blocks(self.size as int, self.grid@, y as int),
                p <= 99 * y,
            decreases size - y,
        {
            let mut x: usize = 0;
            while x + 1 < size
                invariant
                    self.wf(),
                    size == self.size,
                    y + 1 < size,
                    x < size,
                    p == 3 * (grid_blocks(self.size as int, self.grid@, y as int) + grid_blocks_in_row(self.size as int, self.grid@, y as int, x as int)),
                    grid_blocks_in_row(self.size as int, self.grid@, y as int, x as int) <= x,
                    3 * grid_blocks(self.size as int, self.grid@, y as int) <= 99 * y,
                decreases size - x,
            {
                proof {
                    lemma_cell_index(x as int, y as int, size as int);
                    lemma_cell_index(x + 1, y + 1, size as int);
                }
                let c = self.module_at(x, y);
                if c == self.module_at(x + 1, y) && c == self.module_at(x, y + 1) && c == self.module_at(x + 1, y + 1) {
                    p = p + 3;
                }
                x = x + 1;
            }
            y = y + 1;
        }
        p
    }

    /// Whether the eleven modules from `(x, y)` along the row (`horizontal`)
    /// or column form a finder-like pattern; they must fit.
    fn finder_here(&self, x: usize, y: usize, horizontal: bool) -> (b: bool)
        requires
            self.wf(),
            x < self.size,
            y < self.size,
            horizontal ==> x + 11 <= self.size,
            !horizontal ==> y + 11 <= self.size,
        ensures
            b == grid_finder_at(self.size as int, self.grid@, x as int, y as int, horizontal),
    {
        let pat1: [bool; 11] = [true, false, true, true, true, false, true, false, false, false, false];
        let pat2: [bool; 11] = [false, false, false, false, true, false, true, true, true, false, true];
        let ghost s = if horizontal {
            Seq::new(11, |k: int| gdark(self.size as int, self.grid@, x + k, y as int))
        } else {
            Seq::new(11, |k: int| gdark(self.size as int, self.grid@, x as int, y + k))
        };
        let mut same1 = true;
        let mut same2 = true;
        let mut k: usize = 0;
        while k < 11
            invariant
                self.wf(),
                x < self.size,
                y < self.size,
                horizontal ==> x + 11 <= self.size,
                !horizontal ==> y + 11 <= self.size,
                pat1@ == finder_a(),
                pat2@ == finder_b(),
                s == (if horizontal {
                    Seq::new(11, |k: int| gdark(self.size as int, self.grid@, x + k, y as int))
                } else {
                    Seq::new(11, |k: int| gdark(self.size as int, self.grid@, x as int, y + k))
                }),
                k <= 11,
                same1 == (forall|j: int| 0 <= j < k ==> s[j] == finder_a()[j]),
                same2 == (forall|j: int| 0 <= j < k ==> s[j] == finder_b()[j]),
            decreases 11 - k,
        {
            let d = if horizontal {
                self.module_at(x + k, y)
            } else {
                self.module_at(x, y + k)
            };
            proof {
                assert(s[k as int] == d);
            }
            if d != pat1[k] {
                same1 = false;
            }
            if d != pat2[k] {
                same2 = false;
            }
            k = k + 1;
        }
        proof {
            if same1 {
                assert(s =~= finder_a());
            }
            if same2 {
                assert(s =~= finder_b());
            }
            if s == finder_a() {
                assert(forall|j: int| 0 <= j < 11 ==> s[j] == finder_a()[j]);
            }
            if s == finder_b() {
                assert(forall|j: int| 0 <= j < 11 ==> s[j] == finder_b()[j]);
            }
        }
        same1 || same2
    }

    /// Rule 3: forty points per finder-like pattern across or down.
    fn finders_points(&self) -> (p: u32)
        requires
            self.wf(),
        ensures
            p == 40 * grid_finders(self.size as int, self.grid@, self.size as int),
            p <= 87120,
    {
        let size = self.size;
        let mut p: u32 = 0;
        let mut y: usize = 0;
        while y < size
            invariant
                self.wf(),
                size == self.size,
                y <= size,
                p == 40 * grid_finders(self.size as int, self.grid@, y as int),
                grid_finders(self.size as int, self.grid@, y as int) <= 66 * y,
            decreases size - y,
        {
            let mut x: usize = 0;
            while x < size
                invariant
                    self.wf(),
                    size == self.size,
                    y < size,
                    x <= size,
                    p == 40 * (grid_finders(self.size as int, self.grid@, y as int) + grid_finders_in_row(self.size as int, self.grid@, y as int, x as int)),
                    grid_finders_in_row(self.size as int, self.grid@, y as int, x as int) <= 2 * x,
                    grid_finders(self.size as int, self.grid@, y as int) <= 66 * y,
                decreases size - x,
            {
                if x + 11 <= size && self.finder_here(x, y, true) {
                    p = p + 40;
                }
                if y + 11 <= size && self.finder_here(x, y, false) {
                    p = p + 40;
                }
                x = x + 1;
            }
            y = y + 1;
        }
        p
    }

    /// The mask penalty: the score that picks the least conspicuous mask
    /// (see [`spec_penalty`](Self::spec_penalty)).
    pub fn penalty(&self) -> (score: u32)
        requires
            self.wf(),
        ensures
            score == self.spec_penalty(),
    {
        let runs = self.runs_points();
        let blocks = self.blocks_points();
        let finders = self.finders_points();
        // Rule 4: overall dark/light balance.
        let size = self.size;
        proof {
            lemma_cell_index(0, 0, size as int);
            assert(size * size >= 441) by (nonlinear_arith)
                requires
                    size >= 21,
            ;
        }
        let total: u32 = (size * size) as u32;
        let mut darks: u32 = 0;
        let mut k: usize = 0;
        while k < self.grid.len()
            invariant
                self.wf(),
                k <= self.grid@.len(),
                darks == dark_count(self.grid@.take(k as int)),
                darks <= k,
                self.grid@.len() <= 1089,
            decreases self.grid@.len() - k,
        {
            proof {
                assert(self.grid@.take(k + 1).drop_last() =~= self.grid@.take(k as int));
            }
            if self.grid[k] {
                darks = darks + 1;
            }
            k = k + 1;
        }
        proof {
            assert(self.grid@.take(self.grid@.len() as int) =~= self.grid@);
        }
        let percent = darks * 100 / total;
        let penalty_steps = if percent >= 50 {
            (percent - 50) / 5
        } else {
            (50 - percent + 4) / 5
        };
        proof {
            assert((darks as int) * 100 / (total as int) <= 100) by (nonlinear_arith)
                requires
                    darks <= total,
                    total > 0,
            ;
        }
        runs + blocks + finders + penalty_steps * 10
    }
}

/// Encode `data` into a QR module matrix at level `ecc`: `None` exactly when
/// no version up to 4 holds it (byte mode, up to 78 bytes at
/// [`QrEcc::Low`]); otherwise the smallest fitting version's square matrix,
/// rows top to bottom, `true` for a dark module.
pub fn encode(data: &[u8], ecc: QrEcc) -> (r: Option<Vec<Vec<bool>>>)
    ensures
        r is None <==> fitting_version(data@.len() as int, ecc).is_none(),
        r matches Some(m) ==> ({
            let v = fitting_version(data@.len() as int, ecc).unwrap();
            let n = 17 + 4 * v;
            let st = qr_stream(data@, ecc, v);
            &&& m@.len() == n
            &&& forall|y: int| 0 <= y < n ==> (#[trigger] m@[y])@.len() == n
            &&& forall|y: int, x: int|
                0 <= y < n && 0 <= x < n ==> #[trigger] m@[y]@[x] == qr_module(v, st, ecc, best_mask(v, st, ecc, 8), x, y)
        }),
{
    let mut version: usize = 1;
    let mut found = false;
    while version <= 4
        invariant_except_break
            1 <= version <= 5,
            !found,
            forall|v: int| 1 <= v < version ==> data_capacity(v, ecc) < data@.len() + 2,
        ensures
            found ==> 1 <= version <= 4 && fitting_version(data@.len() as int, ecc) == Some(version as int),
            !found ==> fitting_version(data@.len() as int, ecc).is_none(),
        decreases 5 - version,
    {
        let (_, nblocks, blen) = layout(version, ecc);
        if data.len() <= nblocks * blen && nblocks * blen - data.len() >= 2 {
            found = true;
            break;
        }
        version = version + 1;
    }
    if !found {
        return None;
    }
    let (ec_len, nblocks, blen) = layout(version, ecc);
    let total_data = nblocks * blen;
    let gf = Gf::new();

    let codewords = message_codewords(data, total_data);

    let stream = block_stream(&codewords, nblocks, blen, ec_len, &gf);

    // Lay out the modules, then keep the lowest-penalty mask.
    let ghost v = version as int;
    let ghost st = stream@;
    let base = base_canvas(version, &stream);
    let mut best = base.copy();
    let mut best_score: u32 = 0;
    let mut have_best = false;
    let mut mask: u8 = 0;
    while mask < 8
        invariant
            mask <= 8,
            1 <= version <= 4,
            v == version,
            st == stream@,
            base.wf(),
            best.wf(),
            base.size == 17 + 4 * version,
            best.size == base.size,
            forall|x: int, y: int|
                #![trigger base.dark(x, y)]
                0 <= x < base.size && 0 <= y < base.size ==> base.dark(x, y) == qr_base(v, st, x, y) && base.is_function(
                    x,
                    y,
                ) == (qr_function(v, x, y) is Some),
            have_best == (mask > 0),
            mask > 0 ==> best.grid@ == qr_grid(v, st, ecc, best_mask(v, st, ecc, mask as int)),
            mask > 0 ==> best_score == mask_penalty(v, st, ecc, best_mask(v, st, ecc, mask as int)),
        decreases 8 - mask,
    {
        proof {
            assert forall|x: int, y: int|
                0 <= x < base.size && 0 <= y < base.size implies #[trigger] base.dark(x, y) == qr_base(
                    version as int,
                    stream@,
                    x,
                    y,
                ) by {
                assert(base.dark(x, y) == qr_base(v, st, x, y));
            }
            assert forall|x: int, y: int|
                0 <= x < base.size && 0 <= y < base.size implies #[trigger] base.is_function(x, y) == (qr_function(
                    version as int,
                    x,
                    y,
                ) is Some) by {
                assert(base.dark(x, y) == qr_base(v, st, x, y));
            }
        }
        let candidate = masked_candidate(&base, version, &stream, ecc, mask);
        let score = candidate.penalty();
        if !have_best || score < best_score {
            best = candidate;
            best_score = score;
            have_best = true;
        }
        mask = mask + 1;
    }
    let size = best.size;
    let ghost n = size as int;
    let mut rows: Vec<Vec<bool>> = Vec::new();
    let mut y: usize = 0;
    while y < size
        invariant
            best.wf(),
            size == best.size,
            n == size,
            size == 17 + 4 * version,
            1 <= version <= 4,
            v == version,
            st == stream@,
            best.grid@ == qr_grid(v, st, ecc, best_mask(v, st, ecc, 8)),
            y <= size,
            rows@.len() == y,
            forall|r: int| 0 <= r < y ==> (#[trigger] rows@[r])@.len() == size,
            forall|r: int, x: int|
                0 <= r < y && 0 <= x < size ==> #[trigger] rows@[r]@[x] == qr_module(
                    v,
                    st,
                    ecc,
                    best_mask(v, st, ecc, 8),
                    x,
                    r,
                ),
        decreases size - y,
    {
        let mut row: Vec<bool> = Vec::new();
        let mut x: usize = 0;
        while x < size
            invariant
                best.wf(),
                size == best.size,
                n == size,
                size == 17 + 4 * version,
                1 <= version <= 4,
                v == version,
                st == stream@,
                best.grid@ == qr_grid(v, st, ecc, best_mask(v, st, ecc, 8)),
                y < size,
                x <= size,
                row@.len() == x,
                forall|c: int| 0 <= c < x ==> #[trigger] row@[c] == qr_module(v, st, ecc, best_mask(v, st, ecc, 8), c, y as int),
            decreases size - x,
        {
            proof {
                lemma_cell_index(x as int, y as int, n);
                lemma_fundamental_div_mod_converse(y * n + x, n, y as int, x as int);
            }
            row.push(best.module_at(x, y));
            x = x + 1;
        }
        rows.push(row);
        y = y + 1;
    }
    Some(rows)
}

/// The unmasked symbol: an empty canvas of `version`, its function
/// patterns, and `stream` laid over the rest.
#[verifier::spinoff_prover]
#[verifier::rlimit(30)]
fn base_canvas(version: usize, stream: &Vec<u8>) -> (base: Canvas)
    requires
        1 <= version <= 4,
        stream@.len() <= 4096,
    ensures
        base.wf(),
        base.size == 17 + 4 * version,
        forall|x: int, y: int|
            #![trigger base.dark(x, y)]
            0 <= x < base.size && 0 <= y < base.size ==> base.dark(x, y) == qr_base(version as int, stream@, x, y)
                && base.is_function(x, y) == (qr_function(version as int, x, y) is Some),
{
    let mut base = Canvas::new(version);
    let ghost c0 = base;
    base.draw_function_patterns(version);
    let ghost c1 = base;
    let ghost n = base.size as int;
    proof {
        assert forall|x: int, y: int|
            #![trigger c1.dark(x, y)]
            0 <= x < n && 0 <= y < n implies c1.dark(x, y) == (match qr_function(version as int, x, y) {
            Some(d) => d,
            None => false,
        }) && c1.is_function(x, y) == (qr_function(version as int, x, y) is Some) by {
            lemma_cell_index(x, y, n);
            assert(c0.size == n);
            assert(0 <= y * n + x < c0.grid@.len());
            assert(!c0.grid@[y * n + x]);
            assert(!c0.func@[y * n + x]);
            assert(!c0.dark(x, y));
            assert(!c0.is_function(x, y));
            assert(c1.dark(x, y) == c1.dark(x, y));
        }
        assert forall|x: int, y: int|
            #![trigger c1.is_function(x, y)]
            0 <= x < c1.size && 0 <= y < c1.size implies c1.is_function(x, y) == (qr_function(version as int, x, y) is Some) by {
            assert(c1.dark(x, y) == c1.dark(x, y));
        }
        assert forall|t: int| 0 <= t <= pairs(n) * 2 * n implies #[trigger] c1.rank(t) == qr_rank(version as int, t) by {
            lemma_rank_matches(c1, version as int, t);
        }
    }
    base.draw_codewords(stream.as_slice());
    proof {
        assert forall|x: int, y: int|
            #![trigger base.dark(x, y)]
            0 <= x < n && 0 <= y < n implies base.dark(x, y) == qr_base(version as int, stream@, x, y)
                && base.is_function(x, y) == (qr_function(version as int, x, y) is Some) by {
            lemma_cell_index(x, y, n);
            lemma_visit_zz(n, x, y);
            assert(c1.dark(x, y) == (match qr_function(version as int, x, y) {
                Some(d) => d,
                None => false,
            }));
            assert(c1.is_function(x, y) == (qr_function(version as int, x, y) is Some));
            assert(base.dark(x, y) == c1.placed(stream@, x, y));
            assert(base.is_function(x, y) == c1.is_function(x, y));
            if x != 6 {
                assert(c1.rank(visit(n, x, y)) == qr_rank(version as int, visit(n, x, y)));
            }
        }
    }
    base
}

proof fn lemma_rank_matches(c: Canvas, v: int, t: int)
    requires
        c.wf(),
        1 <= v <= 4,
        c.size == 17 + 4 * v,
        0 <= t <= pairs(c.size as int) * 2 * c.size,
        forall|x: int, y: int|
            #![trigger c.is_function(x, y)]
            0 <= x < c.size && 0 <= y < c.size ==> c.is_function(x, y) == (qr_function(v, x, y) is Some),
    ensures
        c.rank(t) == qr_rank(v, t),
    decreases t,
{
    if t > 0 {
        lemma_rank_matches(c, v, t - 1);
        lemma_zz_in(c.size as int, t - 1);
        let p = zz(c.size as int, t - 1);
        assert(c.is_function(p.0, p.1) == (qr_function(v, p.0, p.1) is Some));
    }
}

/// The unmasked symbol `base` with mask `mask` applied and the format
/// information for `ecc` and `mask` written.
fn masked_candidate(base: &Canvas, version: usize, stream: &Vec<u8>, ecc: QrEcc, mask: u8) -> (c: Canvas)
    requires
        base.wf(),
        1 <= version <= 4,
        mask < 8,
        base.size == 17 + 4 * version,
        forall|x: int, y: int|
            0 <= x < base.size && 0 <= y < base.size ==> #[trigger] base.dark(x, y) == qr_base(
                version as int,
                stream@,
                x,
                y,
            ),
        forall|x: int, y: int|
            0 <= x < base.size && 0 <= y < base.size ==> #[trigger] base.is_function(x, y) == (qr_function(
                version as int,
                x,
                y,
            ) is Some),
    ensures
        c.wf(),
        c.size == base.size,
        c.grid@ == qr_grid(version as int, stream@, ecc, mask),
{
    let mut candidate = base.copy();
    let ghost c1 = candidate;
    candidate.apply_mask(mask);
    let ghost c2 = candidate;
    candidate.draw_format(ecc, mask);
    let ghost n = base.size as int;
    proof {
        assert forall|k: int| 0 <= k < candidate.grid@.len() implies #[trigger] candidate.grid@[k] == qr_grid(
            version as int,
            stream@,
            ecc,
            mask,
        )[k] by {
            lemma_grid_index(k, n);
            let x = k % n;
            let y = k / n;
            assert(y * n + x == k);
            assert(c1.dark(x, y) == base.dark(x, y));
            assert(c1.is_function(x, y) == base.is_function(x, y));
            assert(base.dark(x, y) == qr_base(version as int, stream@, x, y));
            assert(c2.dark(x, y) == if c1.is_function(x, y) {
                c1.dark(x, y)
            } else {
                c1.dark(x, y) != mask_flips(mask, x, y)
            });
            assert(c2.is_function(x, y) == c1.is_function(x, y));
            assert(candidate.dark(x, y) == qr_module(version as int, stream@, ecc, mask, x, y));
            assert(candidate.grid@[k] == candidate.dark(x, y));
        }
        assert(candidate.grid@ =~= qr_grid(version as int, stream@, ecc, mask));
    }
    candidate
}

/// The codewords split into `nblocks` blocks of `blen`, each given its
/// `ec_len` Reed-Solomon parity codewords, and interleaved: the data blocks
/// codeword by codeword, then the parity blocks the same way.
fn block_stream(codewords: &Vec<u8>, nblocks: usize, blen: usize, ec_len: usize, gf: &Gf) -> (stream: Vec<u8>)
    requires
        1 <= nblocks <= 4,
        codewords@.len() == nblocks * blen,
        nblocks * blen <= 80,
        ec_len <= 28,
        gf.wf(),
        gf.exp@ == exp_table(),
        gf.log@ == log_table(),
    ensures
        stream@ == interleaved(codewords@, nblocks as int, blen as int, ec_len as int),
        stream@.len() <= 192,
{
    let ghost cw = codewords@;
    let ghost nb = nblocks as int;
    let ghost bl = blen as int;
    let ghost el = ec_len as int;
    proof {
        assert(blen <= nblocks * blen) by (nonlinear_arith)
            requires
                nblocks >= 1,
        ;
    }
    let mut data_blocks: Vec<Vec<u8>> = Vec::new();
    let mut ecc_blocks: Vec<Vec<u8>> = Vec::new();
    let mut bi: usize = 0;
    while bi < nblocks
        invariant
            nb == nblocks,
            bl == blen,
            el == ec_len,
            bi <= nblocks <= 4,
            cw == codewords@,
            codewords@.len() == nblocks * blen,
            nblocks * blen <= 80,
            blen <= 80,
            ec_len <= 28,
            gf.wf(),
            gf.exp@ == exp_table(),
            gf.log@ == log_table(),
            data_blocks@.len() == bi,
            ecc_blocks@.len() == bi,
            forall|j: int| 0 <= j < bi ==> (#[trigger] ecc_blocks@[j])@.len() == ec_len,
            forall|j: int| 0 <= j < bi ==> (#[trigger] data_blocks@[j])@ == cw.subrange(j * bl, j * bl + bl),
            forall|j: int|
                0 <= j < bi ==> (#[trigger] ecc_blocks@[j])@ == rs_remainder(
                    exp_table(),
                    log_table(),
                    cw.subrange(j * bl, j * bl + bl),
                    ec_len as nat,
                ),
        decreases nblocks - bi,
    {
        proof {
            assert((bi + 1) * blen <= nblocks * blen) by (nonlinear_arith)
                requires
                    bi < nblocks,
            ;
            assert((bi + 1) * blen == bi * blen + blen) by (nonlinear_arith);
        }
        let mut block: Vec<u8> = Vec::new();
        let mut j: usize = 0;
        while j < blen
            invariant
                nb == nblocks,
                bl == blen,
                el == ec_len,
            nb == nblocks,
            bl == blen,
            el == ec_len,
                j <= blen,
                cw == codewords@,
                codewords@.len() <= 80,
                (bi + 1) * blen <= codewords@.len(),
                (bi + 1) * blen == bi * blen + blen,
                block@ == cw.subrange(bi * bl, bi * bl + j),
            decreases blen - j,
        {
            block.push(codewords[bi * blen + j]);
            j = j + 1;
            proof {
                assert(block@ =~= cw.subrange(bi * bl, bi * bl + j));
            }
        }
        let parity = gf.rs_ecc(block.as_slice(), ec_len);
        data_blocks.push(block);
        ecc_blocks.push(parity);
        bi = bi + 1;
    }
    let mut stream: Vec<u8> = Vec::new();
    let mut i: usize = 0;
    while i < blen
        invariant
            nb == nblocks,
            bl == blen,
            el == ec_len,
            i <= blen,
            1 <= nblocks <= 4,
            nb == nblocks,
            bl == blen,
            cw == codewords@,
            codewords@.len() == nblocks * blen,
            data_blocks@.len() == nblocks,
            forall|j: int| 0 <= j < nblocks ==> (#[trigger] data_blocks@[j])@ == cw.subrange(j * bl, j * bl + bl),
            stream@.len() == i * nb,
            forall|k: int| 0 <= k < stream@.len() ==> #[trigger] stream@[k] == cw[(k % nb) * bl + k / nb],
        decreases blen - i,
    {
        let mut b: usize = 0;
        while b < data_blocks.len()
            invariant
                nb == nblocks,
                bl == blen,
                el == ec_len,
            nb == nblocks,
            bl == blen,
            el == ec_len,
                b <= data_blocks@.len(),
                i < blen,
                1 <= nblocks <= 4,
                nb == nblocks,
                bl == blen,
                cw == codewords@,
                codewords@.len() == nblocks * blen,
                data_blocks@.len() == nblocks,
                forall|j: int| 0 <= j < nblocks ==> (#[trigger] data_blocks@[j])@ == cw.subrange(j * bl, j * bl + bl),
                stream@.len() == i * nb + b,
                forall|k: int| 0 <= k < stream@.len() ==> #[trigger] stream@[k] == cw[(k % nb) * bl + k / nb],
            decreases data_blocks@.len() - b,
        {
            proof {
                lemma_fundamental_div_mod_converse(i * nb + b, nb, i as int, b as int);
                assert((b + 1) * bl <= nb * bl) by (nonlinear_arith)
                    requires
                        b < nb,
                        bl >= 0,
                ;
                assert((b + 1) * bl == b * bl + bl) by (nonlinear_arith);
                assert(data_blocks@[b as int]@[i as int] == cw[b * bl + i]);
            }
            stream.push(data_blocks[b][i]);
            b = b + 1;
        }
        proof {
            assert((i + 1) * nb == i * nb + nb) by (nonlinear_arith);
        }
        i = i + 1;
    }
    let ghost head = stream@;
    proof {
        assert(head =~= Seq::new((nb * bl) as nat, |k: int| cw[(k % nb) * bl + k / nb])) by {
            assert(blen * nb == nb * bl) by (nonlinear_arith)
                requires
                    nb == nblocks,
                    bl == blen,
            ;
        }
    }
    let mut i: usize = 0;
    while i < ec_len
        invariant
            nb == nblocks,
            bl == blen,
            el == ec_len,
            i <= ec_len <= 28,
            1 <= nblocks <= 4,
            nb == nblocks,
            bl == blen,
            cw == codewords@,
            ecc_blocks@.len() == nblocks,
            forall|j: int|
                0 <= j < nblocks ==> (#[trigger] ecc_blocks@[j])@ == rs_remainder(
                    exp_table(),
                    log_table(),
                    cw.subrange(j * bl, j * bl + bl),
                    ec_len as nat,
                ),
            forall|j: int| 0 <= j < nblocks ==> (#[trigger] ecc_blocks@[j])@.len() == ec_len,
            stream@.len() == head.len() + i * nb,
            forall|k: int| 0 <= k < head.len() ==> #[trigger] stream@[k] == head[k],
            forall|k: int|
                0 <= k < i * nb ==> #[trigger] stream@[head.len() + k] == rs_remainder(
                    exp_table(),
                    log_table(),
                    cw.subrange((k % nb) * bl, (k % nb) * bl + bl),
                    ec_len as nat,
                )[k / nb],
        decreases ec_len - i,
    {
        let mut b: usize = 0;
        while b < ecc_blocks.len()
            invariant
                nb == nblocks,
                bl == blen,
                el == ec_len,
            nb == nblocks,
            bl == blen,
            el == ec_len,
                b <= ecc_blocks@.len(),
                i < ec_len,
                1 <= nblocks <= 4,
                nb == nblocks,
                bl == blen,
                cw == codewords@,
                ecc_blocks@.len() == nblocks,
                forall|j: int|
                    0 <= j < nblocks ==> (#[trigger] ecc_blocks@[j])@ == rs_remainder(
                        exp_table(),
                        log_table(),
                        cw.subrange(j * bl, j * bl + bl),
                        ec_len as nat,
                    ),
                forall|j: int| 0 <= j < nblocks ==> (#[trigger] ecc_blocks@[j])@.len() == ec_len,
                stream@.len() == head.len() + i * nb + b,
                forall|k: int| 0 <= k < head.len() ==> #[trigger] stream@[k] == head[k],
                forall|k: int|
                    0 <= k < i * nb + b ==> #[trigger] stream@[head.len() + k] == rs_remainder(
                        exp_table(),
                        log_table(),
                        cw.subrange((k % nb) * bl, (k % nb) * bl + bl),
                        ec_len as nat,
                    )[k / nb],
            decreases ecc_blocks@.len() - b,
        {
            proof {
                lemma_fundamental_div_mod_converse(i * nb + b, nb, i as int, b as int);
            }
            stream.push(ecc_blocks[b][i]);
            proof {
                assert forall|k: int| 0 <= k < i * nb + b + 1 implies #[trigger] stream@[head.len() + k] == rs_remainder(
                    exp_table(),
                    log_table(),
                    cw.subrange((k % nb) * bl, (k % nb) * bl + bl),
                    ec_len as nat,
                )[k / nb] by {
                    if k == i * nb + b {
                        assert(stream@[head.len() + k] == ecc_blocks@[b as int]@[i as int]);
                    }
                }
            }
            b = b + 1;
        }
        proof {
            assert((i + 1) * nb == i * nb + nb) by (nonlinear_arith);
        }
        i = i + 1;
    }
    proof {
        assert(ec_len * nb == nb * el) by (nonlinear_arith)
            requires
                nb == nblocks,
                el == ec_len,
        ;
        let ecc_part = Seq::new(
            (nb * el) as nat,
            |k: int|
                rs_remainder(exp_table(), log_table(), cw.subrange((k % nb) * bl, (k % nb) * bl + bl), el as nat)[k
                    / nb],
        );
        assert forall|k: int| 0 <= k < stream@.len() implies #[trigger] stream@[k] == (head + ecc_part)[k] by {
            if k >= head.len() {
                assert(stream@[head.len() + (k - head.len())] == stream@[k]);
            }
        }
        assert(stream@ =~= head + ecc_part);
        assert(nb * el <= 112) by (nonlinear_arith)
            requires
                1 <= nb <= 4,
                0 <= el <= 28,
        ;
    }
    stream
}

/// The data codewords for `data` in `total_data` codewords: the message
/// bits packed eight to a byte, then alternating 0xEC / 0x11 pad bytes.
fn message_codewords(data: &[u8], total_data: usize) -> (codewords: Vec<u8>)
    requires
        data@.len() + 2 <= total_data <= 80,
    ensures
        codewords@ == data_codewords(data@, total_data as int),
{
    let ghost msg = message_bits(data@);
    let mut bits: Vec<bool> = Vec::new();
    push_bits(&mut bits, 0b0100, 4);
    let ghost b4 = bits@;
    push_bits(&mut bits, data.len() as u32, 8);
    proof {
        assert forall|i: int| 0 <= i < 12 implies #[trigger] bits@[i] == msg[i] by {
            if i < 4 {
                assert(b4[0 + i] == bit(4u32, (4 - 1 - i) as u32));
                assert(bits@[i] == b4[i]);
            } else {
                assert(bits@[4 + (i - 4)] == bit(data@.len() as u32, (8 - 1 - (i - 4)) as u32));
            }
        }
    }
    let mut k: usize = 0;
    while k < data.len()
        invariant
            msg == message_bits(data@),
            k <= data@.len(),
            data@.len() + 2 <= total_data <= 80,
            bits@.len() == 12 + 8 * k,
            forall|i: int| 0 <= i < 12 + 8 * k ==> #[trigger] bits@[i] == msg[i],
        decreases data@.len() - k,
    {
        let ghost before = bits@;
        push_bits(&mut bits, data[k] as u32, 8);
        proof {
            assert forall|i: int| 0 <= i < 12 + 8 * (k + 1) implies #[trigger] bits@[i] == msg[i] by {
                if i >= 12 + 8 * k {
                    let q = i - (12 + 8 * k);
                    assert(bits@[before.len() + q] == bit(data@[k as int] as u32, (8 - 1 - q) as u32));
                    assert((i - 12) / 8 == k as int);
                    assert((i - 12) % 8 == q);
                    assert(msg[i] == code_bit(data@, i - 12));
                } else {
                    assert(bits@[i] == before[i]);
                }
            }
        }
        k = k + 1;
    }
    let cap_bits = total_data * 8;
    let room = cap_bits - bits.len();
    let term = if room < 4 {
        room
    } else {
        4
    };
    let mut t: usize = 0;
    while t < term
        invariant
            msg == message_bits(data@),
            t <= term <= 4,
            term == 4,
            data@.len() + 2 <= total_data <= 80,
            bits@.len() == 12 + 8 * data@.len() + t,
            forall|i: int| 0 <= i < bits@.len() ==> #[trigger] bits@[i] == msg[i],
        decreases term - t,
    {
        bits.push(false);
        proof {
            assert(msg[12 + 8 * data@.len() + t] == false);
        }
        t = t + 1;
    }
    while bits.len() % 8 != 0
        invariant
            msg == message_bits(data@),
            bits@.len() == 16 + 8 * data@.len(),
            cap_bits == total_data * 8,
            forall|i: int| 0 <= i < bits@.len() ==> #[trigger] bits@[i] == msg[i],
        decreases cap_bits - bits@.len(),
    {
        bits.push(false);
    }
    proof {
        assert(bits@ =~= msg);
    }
    let n_msg = bits.len() / 8;
    let mut codewords: Vec<u8> = Vec::new();
    let mut c: usize = 0;
    while c < n_msg
        invariant
            msg == message_bits(data@),
            bits@ == msg,
            bits@.len() == 16 + 8 * data@.len(),
            n_msg == data@.len() + 2,
            data@.len() + 2 <= total_data <= 80,
            c <= n_msg,
            codewords@.len() == c,
            forall|j: int| 0 <= j < c ==> #[trigger] codewords@[j] == pack(msg, 8 * j, 8),
        decreases n_msg - c,
    {
        let mut acc: u8 = 0;
        let mut b: usize = 0;
        while b < 8
            invariant
                msg == message_bits(data@),
            msg == message_bits(data@),
                bits@ == msg,
                bits@.len() == 16 + 8 * data@.len(),
                n_msg == data@.len() + 2,
                data@.len() + 2 <= 80,
                c < n_msg,
                b <= 8,
                acc == pack(msg, 8 * c, b as nat),
                (acc as int) < pow2_small(b as int),
            decreases 8 - b,
        {
            let bit: u8 = if bits[c * 8 + b] {
                1
            } else {
                0
            };
            proof {
                lemma_shift_in(acc, bit, b as int);
            }
            acc = (acc << 1u8) | bit;
            b = b + 1;
        }
        codewords.push(acc);
        c = c + 1;
    }
    let mut alternate = true;
    while codewords.len() < total_data
        invariant
            msg == message_bits(data@),
            codewords@.len() <= total_data,
            n_msg == data@.len() + 2,
            n_msg <= codewords@.len(),
            alternate == ((codewords@.len() - n_msg) % 2 == 0),
            forall|j: int| 0 <= j < n_msg ==> #[trigger] codewords@[j] == pack(msg, 8 * j, 8),
            forall|j: int|
                n_msg <= j < codewords@.len() ==> #[trigger] codewords@[j] == if (j - n_msg) % 2 == 0 {
                    0xECu8
                } else {
                    0x11u8
                },
        decreases total_data - codewords@.len(),
    {
        codewords.push(
            if alternate {
                0xEC
            } else {
                0x11
            },
        );
        alternate = !alternate;
    }
    proof {
        assert(codewords@ =~= data_codewords(data@, total_data as int));
    }
    codewords
}

proof fn lemma_shift_in(acc: u8, bit: u8, b: int)
    requires
        0 <= b < 8,
        (acc as int) < pow2_small(b),
        bit <= 1,
    ensures
        ((acc << 1u8) | bit) as int == acc * 2 + bit,
        (acc * 2 + bit) < pow2_small(b + 1),
{
    reveal_with_fuel(pow2_small, 9);
    assert(b == 0 || b == 1 || b == 2 || b == 3 || b == 4 || b == 5 || b == 6 || b == 7);
    assert(acc < 128);
    assert(((acc << 1u8) | bit) as int == acc * 2 + bit) by (bit_vector)
        requires
            acc < 128,
            bit <= 1,
    ;
}

/// Append the low `n` bits of `value`, most significant first.
fn push_bits(bits: &mut Vec<bool>, value: u32, n: u32)
    requires
        n <= 32,
    ensures
        final(bits)@.len() == old(bits)@.len() + n,
        forall|k: int| 0 <= k < old(bits)@.len() ==> #[trigger] final(bits)@[k] == old(bits)@[k],
        forall|k: int| 0 <= k < n ==> #[trigger] final(bits)@[old(bits)@.len() + k] == bit(value, (n - 1 - k) as u32),
{
    let ghost start = bits@;
    let mut i: u32 = n;
    while i > 0
        invariant
            i <= n <= 32,
            bits@.len() == start.len() + (n - i),
            forall|k: int| 0 <= k < start.len() ==> #[trigger] bits@[k] == start[k],
            forall|k: int| 0 <= k < n - i ==> #[trigger] bits@[start.len() + k] == bit(value, (n - 1 - k) as u32),
        decreases i,
    {
        bits.push(getbit(value, i - 1));
        i = i - 1;
    }
}

/// A QR code drawn with half-block cells: two module rows per terminal row,
/// dark modules black and light ones white by default, inside a quiet zone.
pub struct QrCode {
    pub matrix: Vec<Vec<bool>>,
    pub quiet: u16,
    pub dark: Color,
    pub light: Color,
}

impl QrCode {
    /// Encode `text` at level `ecc`; `None` when it does not fit version 4.
    pub fn encode(text: &str, ecc: QrEcc) -> (r: Option<QrCode>)
        ensures
            r is None <==> fitting_version(text.spec_bytes().len() as int, ecc).is_none(),
            r matches Some(q) ==> q.quiet == 4 && q.matrix@.len() == 17 + 4 * fitting_version(
                text.spec_bytes().len() as int,
                ecc,
            ).unwrap(),
    {
        match encode(text.as_bytes(), ecc) {
            Some(matrix) => Some(QrCode::from_matrix(matrix)),
            None => None,
        }
    }

    /// A view over a module matrix computed elsewhere (`true` = dark).
    pub fn from_matrix(matrix: Vec<Vec<bool>>) -> (q: QrCode)
        ensures
            q.matrix == matrix,
            q.quiet == 4,
            q.dark == Color::Rgb(0, 0, 0),
            q.light == Color::Rgb(255, 255, 255),
    {
        QrCode { matrix, quiet: 4, dark: Color::Rgb(0, 0, 0), light: Color::Rgb(255, 255, 255) }
    }

    /// The quiet-zone width in modules (four by default, the minimum the
    /// standard asks for).
    pub fn quiet_zone(self, modules: u16) -> (q: QrCode)
        ensures
            q.quiet == modules,
            q.matrix == self.matrix && q.dark == self.dark && q.light == self.light,
    {
        QrCode { quiet: modules, ..self }
    }

    /// The dark and light module colors.
    pub fn colors(self, dark: Color, light: Color) -> (q: QrCode)
        ensures
            q.dark == dark && q.light == light,
            q.matrix == self.matrix && q.quiet == self.quiet,
    {
        QrCode { dark, light, ..self }
    }

    /// Modules per side including the quiet zone on both edges (saturating).
    pub fn full_size(&self) -> (n: u16)
        ensures
            n == crate::geometry::sat_add(
                (if self.matrix@.len() < 65536 { self.matrix@.len() as int } else { 65535 }),
                crate::geometry::sat_add(self.quiet as int, self.quiet as int),
            ),
    {
        let side: u16 = if self.matrix.len() < 65536 { self.matrix.len() as u16 } else { 65535 };
        side.saturating_add(self.quiet.saturating_add(self.quiet))
    }

    /// Whether module `(x, y)` (quiet-zone coordinates) is dark.
    pub fn module(&self, x: u16, y: u16) -> (b: bool)
        ensures
            b == (x >= self.quiet && y >= self.quiet && (y - self.quiet) < self.matrix@.len() && (x - self.quiet)
                < self.matrix@[y - self.quiet]@.len() && self.matrix@[y - self.quiet]@[x - self.quiet]),
    {
        let q = self.quiet;
        if x < q || y < q {
            return false;
        }
        let mx = (x - q) as usize;
        let my = (y - q) as usize;
        if my < self.matrix.len() && mx < self.matrix[my].len() {
            self.matrix[my][mx]
        } else {
            false
        }
    }
}

/// The side of the drawn symbol in modules, quiet zone included (saturating).
pub open spec fn qr_side(q: QrCode) -> int {
    crate::geometry::sat_add(
        (if q.matrix@.len() < 65536 { q.matrix@.len() as int } else { 65535 }),
        crate::geometry::sat_add(q.quiet as int, q.quiet as int),
    )
}

/// Whether module `(x, y)`, in quiet-zone coordinates, is dark.
pub open spec fn qr_dark(q: QrCode, x: int, y: int) -> bool {
    x >= q.quiet && y >= q.quiet && y - q.quiet < q.matrix@.len() && x - q.quiet < q.matrix@[y
        - q.quiet]@.len() && q.matrix@[y - q.quiet]@[x - q.quiet]
}

/// What the symbol puts in cell `(px, py)` when drawn into `area`: each
/// cell holds two modules stacked, shown as an upper half block in the top
/// module's colour over the bottom one's; cells past the symbol or the area
/// get nothing.
pub open spec fn qr_cell(q: QrCode, area: Rect, px: int, py: int) -> Option<(char, Style)> {
    let side = qr_side(q);
    let x = px - area.x;
    let r = py - area.y;
    if 0 <= x < side && 0 <= r < side / 2 + side % 2 && px < area.spec_right() && py < area.spec_bottom() {
        Some(
            (
                '▀',
                Style {
                    fg: Some(if qr_dark(q, x, 2 * r) { q.dark } else { q.light }),
                    bg: Some(if 2 * r + 1 < side && qr_dark(q, x, 2 * r + 1) { q.dark } else { q.light }),
                    ..Style::spec_empty()
                },
            ),
        )
    } else {
        None
    }
}

/// [`qr_cell`] for the cells drawn before column `x0` of row `r0`.
pub open spec fn qr_drawn(q: QrCode, area: Rect, r0: int, x0: int, px: int, py: int) -> Option<(char, Style)> {
    if py - area.y < r0 || (py - area.y == r0 && px - area.x < x0) {
        qr_cell(q, area, px, py)
    } else {
        None
    }
}

impl crate::view::View for QrCode {
    /// The full side by half as many rows (rounded up), within `available`.
    fn measure(&self, available: Size, ctx: &RenderCtx) -> (s: Size)
        ensures
            ({
                let side = crate::geometry::sat_add(
                    (if self.matrix@.len() < 65536 { self.matrix@.len() as int } else { 65535 }),
                    crate::geometry::sat_add(self.quiet as int, self.quiet as int),
                );
                &&& s.width == crate::geometry::min(side, available.width as int)
                &&& s.height == crate::geometry::min(side / 2 + side % 2, available.height as int)
            }),
    {
        let side = self.full_size();
        let rows = side / 2 + side % 2;
        Size::new(
            if side < available.width { side } else { available.width },
            if rows < available.height { rows } else { available.height },
        )
    }

    /// Each cell of the area, left to right and top down, as its two
    /// modules; cut at the area's edges and the clip.
    fn render(&self, area: Rect, surface: &mut Surface, ctx: &RenderCtx)
        ensures
            forall|x: int, y: int|
                old(surface).buffer.area.holds(x, y) ==> #[trigger] final(surface).buffer.at(x, y) == paint_cell(
                    old(surface).buffer.at(x, y),
                    qr_cell(*self, area, x, y),
                    old(surface).clip,
                    x,
                    y,
                ),
    {
        let ghost base = *surface;
        if area.is_empty() {
            return;
        }
        let side = self.full_size();
        let rows = side / 2 + side % 2;
        let mut row: u16 = 0;
        while row < rows
            invariant_except_break
                surface.wf(),
                surface.buffer.area == base.buffer.area,
                surface.clip == base.clip,
                rows == side / 2 + side % 2,
                side == qr_side(*self),
                row <= rows,
                forall|x: int, y: int|
                    base.buffer.area.holds(x, y) ==> #[trigger] surface.buffer.at(x, y) == paint_cell(
                        base.buffer.at(x, y),
                        qr_drawn(*self, area, row as int, 0, x, y),
                        base.clip,
                        x,
                        y,
                    ),
            ensures
                surface.wf(),
                surface.buffer.area == base.buffer.area,
                surface.clip == base.clip,
                forall|x: int, y: int|
                    base.buffer.area.holds(x, y) ==> #[trigger] surface.buffer.at(x, y) == paint_cell(
                        base.buffer.at(x, y),
                        qr_cell(*self, area, x, y),
                        base.clip,
                        x,
                        y,
                    ),
            decreases rows - row,
        {
            let y = area.y.saturating_add(row);
            if y >= area.bottom() {
                proof {
                    assert forall|x: int, y2: int| base.buffer.area.holds(x, y2) implies qr_drawn(
                        *self,
                        area,
                        row as int,
                        0,
                        x,
                        y2,
                    ) == qr_cell(*self, area, x, y2) by {}
                }
                break;
            }
            let top_my = row * 2;
            let bot_my = top_my + 1;
            let mut x: u16 = 0;
            while x < side
                invariant_except_break
                    surface.wf(),
                    surface.buffer.area == base.buffer.area,
                    surface.clip == base.clip,
                    rows == side / 2 + side % 2,
                    side == qr_side(*self),
                    row < rows,
                    y == area.y + row,
                    y < area.spec_bottom(),
                    top_my == 2 * row,
                    bot_my == top_my + 1,
                    x <= side,
                    forall|px: int, py: int|
                        base.buffer.area.holds(px, py) ==> #[trigger] surface.buffer.at(px, py) == paint_cell(
                            base.buffer.at(px, py),
                            qr_drawn(*self, area, row as int, x as int, px, py),
                            base.clip,
                            px,
                            py,
                        ),
                ensures
                    surface.wf(),
                    surface.buffer.area == base.buffer.area,
                    surface.clip == base.clip,
                    forall|px: int, py: int|
                        base.buffer.area.holds(px, py) ==> #[trigger] surface.buffer.at(px, py) == paint_cell(
                            base.buffer.at(px, py),
                            qr_drawn(*self, area, row + 1, 0, px, py),
                            base.clip,
                            px,
                            py,
                        ),
                decreases side - x,
            {
                let cx = area.x.saturating_add(x);
                if cx >= area.right() {
                    proof {
                        assert forall|px: int, py: int| base.buffer.area.holds(px, py) implies qr_drawn(
                            *self,
                            area,
                            row as int,
                            x as int,
                            px,
                            py,
                        ) == qr_drawn(*self, area, row + 1, 0, px, py) by {}
                    }
                    break;
                }
                let top = self.module(x, top_my);
                let bottom = bot_my < side && self.module(x, bot_my);
                let fg = if top { self.dark } else { self.light };
                let bg = if bottom { self.dark } else { self.light };
                let ghost s0 = *surface;
                surface.set(cx, y, '▀', Style::new().fg(fg).bg(bg));
                proof {
                    assert(cx == area.x + x);
                    assert forall|px: int, py: int| base.buffer.area.holds(px, py) implies #[trigger] surface.buffer.at(
                        px,
                        py,
                    ) == paint_cell(
                        base.buffer.at(px, py),
                        qr_drawn(*self, area, row as int, x + 1, px, py),
                        base.clip,
                        px,
                        py,
                    ) by {
                        assert(s0.buffer.at(px, py) == paint_cell(
                            base.buffer.at(px, py),
                            qr_drawn(*self, area, row as int, x as int, px, py),
                            base.clip,
                            px,
                            py,
                        ));
                    }
                }
                x = x + 1;
            }
            row = row + 1;
        }
    }
}

} // verus!
