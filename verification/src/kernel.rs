use vstd::prelude::*;

verus! {

/// Largest admissible sum of kernel weights: keeps the weighted sum of
/// 8-bit channel values inside `u64` during convolution.
pub const MAX_KERNEL_TOTAL: u64 = u64::MAX / 255;

/// Mathematical model of a kernel: a flat, row-major `side * side`
/// matrix of non-negative integer weights with their sum.
pub struct KernelView {
    pub side: nat,
    pub weights: Seq<u64>,
    pub total: nat,
}

/// Sum of the first `n` weights.
pub open spec fn sum_prefix(ws: Seq<u64>, n: int) -> int
    decreases n,
{
    if n <= 0 {
        0
    } else {
        sum_prefix(ws, n - 1) + ws[n - 1]
    }
}

/// Weight sums grow with the prefix length: every partial sum is
/// bounded by the total.
pub proof fn lemma_sum_prefix_mono(ws: Seq<u64>, i: int, j: int)
    requires
        0 <= i <= j,
    ensures
        sum_prefix(ws, i) <= sum_prefix(ws, j),
    decreases j - i,
{
    if i < j {
        lemma_sum_prefix_mono(ws, i, j - 1);
    }
}

impl KernelView {
    pub open spec fn wf(self) -> bool {
        &&& self.side % 2 == 1
        &&& 1 <= self.side <= 0xFFFF_FFFF
        &&& self.weights.len() == self.side * self.side
        &&& self.total == sum_prefix(self.weights, self.weights.len() as int)
        &&& 0 < self.total <= MAX_KERNEL_TOTAL
    }

    /// Index of the kernel's central row and column.
    pub open spec fn half(self) -> int {
        self.side as int / 2
    }
}

/// The weights form a normalizable square kernel of odd side: the side
/// matches the weight count, and the weight sum is positive and small
/// enough that convolution arithmetic cannot overflow.
pub open spec fn kernel_ok(side: nat, ws: Seq<u64>) -> bool {
    &&& side % 2 == 1
    &&& 1 <= side
    &&& ws.len() == side * side
    &&& 0 < sum_prefix(ws, ws.len() as int) <= MAX_KERNEL_TOTAL
}

/// A square convolution kernel of odd side length, held as integer
/// weights. The blurred value of a channel is the weight-sum-normalized
/// weighted sum of sampled channel values, so the kernel is exactly
/// normalized by construction.
pub struct Kernel {
    pub side: usize,
    pub weights: Vec<u64>,
    pub total: u64,
}

impl View for Kernel {
    type V = KernelView;

    open spec fn view(&self) -> KernelView {
        KernelView { side: self.side as nat, weights: self.weights@, total: self.total as nat }
    }
}

impl Kernel {
    /// Validates and packages kernel weights: the side must be odd, the
    /// weight count must be `side * side`, and the weight sum must be
    /// positive and at most `MAX_KERNEL_TOTAL`.
    pub fn new(side: usize, weights: Vec<u64>) -> (r: Option<Kernel>)
        ensures
            match r {
                Some(k) => k.side == side && k@.weights == weights@ && k@.wf(),
                None => !kernel_ok(side as nat, weights@),
            },
    {
        let n: usize = weights.len();
        if side % 2 != 1 || side == 0 {
            return None;
        }
        let sq: Option<usize> = side.checked_mul(side);
        match sq {
            None => {
                // side * side exceeds usize::MAX, so no vector can hold it
                return None;
            },
            Some(sq) => {
                if n != sq {
                    return None;
                }
            },
        }
        proof {
            assert(usize::MAX <= u64::MAX);
            assert(side <= 0xFFFF_FFFF) by (nonlinear_arith)
                requires side * side <= 0xFFFF_FFFF_FFFF_FFFFu64;
        }
        let mut total: u64 = 0;
        let mut i: usize = 0;
        while i < n
            invariant
                i <= n,
                n == weights@.len(),
                total == sum_prefix(weights@, i as int),
                total <= MAX_KERNEL_TOTAL,
            decreases n - i,
        {
            let w: u64 = weights[i];
            if w > MAX_KERNEL_TOTAL - total {
                proof {
                    lemma_sum_prefix_mono(weights@, i + 1, n as int);
                }
                return None;
            }
            total = total + w;
            i = i + 1;
        }
        if total == 0 {
            return None;
        }
        Some(Kernel { side, weights, total })
    }
}

/// Ceiling of the rational `a / b`.
pub open spec fn ceil_div(a: int, b: int) -> int {
    (a + b - 1) / b
}

/// Kernel side length for blur strength `sigma = num / den`: the
/// smallest odd integer no smaller than the ceiling of `6 * sigma`, so
/// the kernel always brackets at least six standard deviations.
pub fn gaussian_side(sigma_num: u64, sigma_den: u64) -> (r: u64)
    requires
        1 <= sigma_num <= 0x1_0000_0000,
        1 <= sigma_den <= 0x1_0000_0000,
    ensures
        r % 2 == 1,
        ({
            let c = ceil_div(6 * sigma_num, sigma_den as int);
            r == if c % 2 == 1 { c } else { c + 1 }
        }),
        r * sigma_den >= 6 * sigma_num,
        1 <= r,
{
    let c: u64 = (6 * sigma_num + sigma_den - 1) / sigma_den;
    proof {
        let a = 6 * sigma_num as int;
        let b = sigma_den as int;
        vstd::arithmetic::div_mod::lemma_fundamental_div_mod(a + b - 1, b);
        vstd::arithmetic::div_mod::lemma_mod_division_less_than_divisor(a + b - 1, b);
        assert(c * b >= a) by (nonlinear_arith)
            requires
                a + b - 1 == b * c + (a + b - 1) % b,
                0 <= (a + b - 1) % b < b;
        assert(c >= 1) by (nonlinear_arith)
            requires
                c * b >= a,
                a >= 6,
                1 <= b,
                0 <= c;
        assert((c + 1) * b >= c * b) by (nonlinear_arith)
            requires b >= 1, c >= 0;
    }
    if c % 2 == 1 {
        c
    } else {
        c + 1
    }
}

} // verus!
