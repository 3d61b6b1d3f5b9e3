use vstd::prelude::*;

verus! {

/// One process of a worker, as the worker reports it.
///
/// The CPU share is a 32-bit IEEE-754 number, carried here by its bit pattern
/// (`f32::to_bits`), so that the value is kept exactly.
#[derive(Debug)]
pub struct ProcessInfo {
    pub pid: i32,
    pub name: String,
    pub virtual_memory_bytes: u64,
    pub resident_set_size_bytes: u64,
    pub cpu_usage_percentage_bits: u32,
}

/// The mathematical value of a [`ProcessInfo`].
pub struct ProcessInfoView {
    pub pid: i32,
    pub name: Seq<char>,
    pub virtual_memory_bytes: u64,
    pub resident_set_size_bytes: u64,
    pub cpu_usage_percentage_bits: u32,
}

impl View for ProcessInfo {
    type V = ProcessInfoView;

    open spec fn view(&self) -> ProcessInfoView {
        ProcessInfoView {
            pid: self.pid,
            name: self.name@,
            virtual_memory_bytes: self.virtual_memory_bytes,
            resident_set_size_bytes: self.resident_set_size_bytes,
            cpu_usage_percentage_bits: self.cpu_usage_percentage_bits,
        }
    }
}

impl Clone for ProcessInfo {
    fn clone(&self) -> (res: Self)
        ensures
            res@ == self@,
    {
        ProcessInfo {
            pid: self.pid,
            name: self.name.clone(),
            virtual_memory_bytes: self.virtual_memory_bytes,
            resident_set_size_bytes: self.resident_set_size_bytes,
            cpu_usage_percentage_bits: self.cpu_usage_percentage_bits,
        }
    }
}

/// A rank of a CPU share given by its IEEE-754 bit pattern: larger shares get
/// larger ranks, and the two zeros tie. A positive pattern `b` ranks
/// `b + 2^31`; a negative one (sign bit set) ranks `2^32 - b`.
pub open spec fn usage_rank(bits: u32) -> u32 {
    if bits >= 0x8000_0000 {
        (0x1_0000_0000 - bits) as u32
    } else {
        (bits + 0x8000_0000) as u32
    }
}

/// The rank of a CPU share, as [`usage_rank`] states.
pub fn cpu_rank(bits: u32) -> (r: u32)
    ensures
        r == usage_rank(bits),
{
    if bits >= 0x8000_0000 {
        (0xffff_ffff - bits) + 1
    } else {
        bits + 0x8000_0000
    }
}

/// The magnitude part (all but the sign bit) of a 32-bit IEEE-754 pattern.
pub open spec fn float_magnitude_bits(bits: u32) -> int {
    (bits as int) % 0x8000_0000
}

/// The pattern's sign bit is set.
pub open spec fn float_is_negative(bits: u32) -> bool {
    bits >= 0x8000_0000
}

/// The biased exponent field (8 bits) of a 32-bit IEEE-754 pattern.
pub open spec fn float_exponent(bits: u32) -> int {
    float_magnitude_bits(bits) / 0x80_0000
}

/// The fraction field (23 bits) of a 32-bit IEEE-754 pattern.
pub open spec fn float_fraction(bits: u32) -> int {
    float_magnitude_bits(bits) % 0x80_0000
}

/// The pattern is a finite number (zero, subnormal or normal).
pub open spec fn is_finite_float(bits: u32) -> bool {
    float_exponent(bits) < 255
}

/// The pattern is an infinity.
pub open spec fn is_infinite_float(bits: u32) -> bool {
    float_exponent(bits) == 255 && float_fraction(bits) == 0
}

/// |x| * 2^149 for the finite number x whose magnitude bits are `p`: a subnormal
/// is `fraction * 2^-149`, a normal number is `(2^23 + fraction) * 2^(exponent - 150)`.
pub open spec fn scaled_magnitude(p: int) -> int {
    let e = p / 0x80_0000;
    let f = p % 0x80_0000;
    if e == 0 {
        f
    } else {
        (f + 0x80_0000) * vstd::arithmetic::power2::pow2((e - 1) as nat)
    }
}

/// x * 2^149 for the finite number x that the pattern `bits` stands for, an exact
/// integer: this is the number's value, scaled.
pub open spec fn float_value(bits: u32) -> int {
    let m = scaled_magnitude(float_magnitude_bits(bits));
    if float_is_negative(bits) { -m } else { m }
}

proof fn lemma_magnitude_bounds(p: int)
    requires
        0 <= p < 0x7f80_0000,
    ensures
        p / 0x80_0000 == 0 ==> 0 <= scaled_magnitude(p) < 0x80_0000,
        p / 0x80_0000 > 0 ==> 0x80_0000 * vstd::arithmetic::power2::pow2((p / 0x80_0000 - 1) as nat)
            <= scaled_magnitude(p) < 0x80_0000 * vstd::arithmetic::power2::pow2((p / 0x80_0000) as nat),
        p > 0 <==> scaled_magnitude(p) > 0,
        0 <= p / 0x80_0000 < 255,
{
    let e = p / 0x80_0000;
    let f = p % 0x80_0000;
    vstd::arithmetic::div_mod::lemma_fundamental_div_mod(p, 0x80_0000);
    assert(0 <= f < 0x80_0000);
    assert(0 <= e < 255);
    if e > 0 {
        let x = vstd::arithmetic::power2::pow2((e - 1) as nat);
        vstd::arithmetic::power2::lemma_pow2_pos((e - 1) as nat);
        vstd::arithmetic::power2::lemma_pow2_unfold(e as nat);
        assert(0x80_0000 * x <= (f + 0x80_0000) * x < 0x80_0000 * (2 * x)) by (nonlinear_arith)
            requires
                0 <= f < 0x80_0000,
                x > 0,
        ;
    }
}

proof fn lemma_magnitude_increasing(p1: int, p2: int)
    requires
        0 <= p1 < p2 < 0x7f80_0000,
    ensures
        scaled_magnitude(p1) < scaled_magnitude(p2),
{
    let e1 = p1 / 0x80_0000;
    let e2 = p2 / 0x80_0000;
    let f1 = p1 % 0x80_0000;
    let f2 = p2 % 0x80_0000;
    vstd::arithmetic::div_mod::lemma_fundamental_div_mod(p1, 0x80_0000);
    vstd::arithmetic::div_mod::lemma_fundamental_div_mod(p2, 0x80_0000);
    vstd::arithmetic::div_mod::lemma_div_is_ordered(p1, p2, 0x80_0000);
    lemma_magnitude_bounds(p1);
    lemma_magnitude_bounds(p2);
    if e1 == e2 {
        assert(f1 < f2);
        if e1 > 0 {
            let x = vstd::arithmetic::power2::pow2((e1 - 1) as nat);
            vstd::arithmetic::power2::lemma_pow2_pos((e1 - 1) as nat);
            assert((f1 + 0x80_0000) * x < (f2 + 0x80_0000) * x) by (nonlinear_arith)
                requires
                    f1 < f2,
                    x > 0,
            ;
        }
    } else {
        assert(e1 < e2);
        if e1 > 0 {
            let u = vstd::arithmetic::power2::pow2(e1 as nat);
            let l = vstd::arithmetic::power2::pow2((e2 - 1) as nat);
            if e1 < e2 - 1 {
                vstd::arithmetic::power2::lemma_pow2_strictly_increases(e1 as nat, (e2 - 1) as nat);
            }
            assert(0x80_0000 * u <= 0x80_0000 * l) by (nonlinear_arith)
                requires
                    u <= l,
            ;
        } else {
            vstd::arithmetic::power2::lemma_pow2_pos((e2 - 1) as nat);
            let l = vstd::arithmetic::power2::pow2((e2 - 1) as nat);
            assert(0x80_0000 <= 0x80_0000 * l) by (nonlinear_arith)
                requires
                    l >= 1,
            ;
        }
    }
}

proof fn lemma_rank_fields(bits: u32)
    ensures
        float_is_negative(bits) ==> usage_rank(bits) == 0x8000_0000 - float_magnitude_bits(bits),
        !float_is_negative(bits) ==> usage_rank(bits) == 0x8000_0000 + float_magnitude_bits(bits),
        0 <= float_magnitude_bits(bits) < 0x8000_0000,
{
    if bits >= 0x8000_0000 {
        assert((bits as int) % 0x8000_0000 == bits - 0x8000_0000);
    } else {
        assert((bits as int) % 0x8000_0000 == bits);
    }
}

/// The rank orders CPU shares exactly as their values are ordered: for two finite
/// shares, the smaller value has the smaller rank, and equal values (the two zeros
/// included) have equal ranks.
pub proof fn law_rank_follows_float_order(a: u32, b: u32)
    requires
        is_finite_float(a),
        is_finite_float(b),
    ensures
        float_value(a) < float_value(b) <==> usage_rank(a) < usage_rank(b),
        float_value(a) == float_value(b) <==> usage_rank(a) == usage_rank(b),
{
    lemma_rank_fields(a);
    lemma_rank_fields(b);
    let pa = float_magnitude_bits(a);
    let pb = float_magnitude_bits(b);
    vstd::arithmetic::div_mod::lemma_fundamental_div_mod(pa, 0x80_0000);
    vstd::arithmetic::div_mod::lemma_fundamental_div_mod(pb, 0x80_0000);
    assert(pa < 0x7f80_0000);
    assert(pb < 0x7f80_0000);
    lemma_magnitude_bounds(pa);
    lemma_magnitude_bounds(pb);
    if pa < pb {
        lemma_magnitude_increasing(pa, pb);
    } else if pb < pa {
        lemma_magnitude_increasing(pb, pa);
    }
}

/// An infinite share ranks beyond every finite one: plus infinity above, minus
/// infinity below.
pub proof fn law_rank_infinities(a: u32, inf: u32)
    requires
        is_finite_float(a),
        is_infinite_float(inf),
    ensures
        !float_is_negative(inf) ==> usage_rank(a) < usage_rank(inf),
        float_is_negative(inf) ==> usage_rank(inf) < usage_rank(a),
{
    lemma_rank_fields(a);
    lemma_rank_fields(inf);
    let pa = float_magnitude_bits(a);
    let pi = float_magnitude_bits(inf);
    vstd::arithmetic::div_mod::lemma_fundamental_div_mod(pa, 0x80_0000);
    vstd::arithmetic::div_mod::lemma_fundamental_div_mod(pi, 0x80_0000);
    assert(pa < 0x7f80_0000);
    assert(pi == 0x7f80_0000);
}

/// `a` is listed before `b`: it uses more CPU, or as much CPU and more memory.
pub open spec fn runs_before(a: ProcessInfo, b: ProcessInfo) -> bool {
    let ra = usage_rank(a.cpu_usage_percentage_bits);
    let rb = usage_rank(b.cpu_usage_percentage_bits);
    ra > rb || (ra == rb && a.resident_set_size_bytes > b.resident_set_size_bytes)
}

/// `a` and `b` tie: the same CPU rank and the same memory.
pub open spec fn ties(a: ProcessInfo, b: ProcessInfo) -> bool {
    &&& usage_rank(a.cpu_usage_percentage_bits) == usage_rank(b.cpu_usage_percentage_bits)
    &&& a.resident_set_size_bytes == b.resident_set_size_bytes
}

/// No process of `s` is listed after one that it runs before.
pub open spec fn is_usage_ordered(s: Seq<ProcessInfo>) -> bool {
    forall|i: int, j: int| 0 <= i < j < s.len() ==> !runs_before(#[trigger] s[j], #[trigger] s[i])
}

/// `out` lists the processes of `inp`, each once: `out[k]` is `inp[perm[k]]`; and
/// processes that tie keep the order they had in `inp`.
pub open spec fn is_stable_arrangement(out: Seq<ProcessInfo>, inp: Seq<ProcessInfo>, perm: Seq<int>) -> bool {
    &&& perm.len() == out.len()
    &&& out.len() == inp.len()
    &&& forall|k: int| 0 <= k < perm.len() ==> 0 <= #[trigger] perm[k] < inp.len() && out[k] == inp[perm[k]]
    &&& forall|k: int, l: int| 0 <= k < l < perm.len() ==> #[trigger] perm[k] != #[trigger] perm[l]
    &&& forall|k: int, l: int| 0 <= k < l < perm.len() && ties(out[k], out[l]) ==> #[trigger] perm[k] < #[trigger] perm[l]
}

/// Lists the processes from the busiest to the idlest: by CPU share, then by
/// resident memory, both from high to low; ties keep their order.
pub fn sort_processes(procs: &mut Vec<ProcessInfo>)
    ensures
        is_usage_ordered(final(procs)@),
        exists|perm: Seq<int>| is_stable_arrangement(final(procs)@, old(procs)@, perm),
{
    let ghost orig = procs@;
    let mut input: Vec<ProcessInfo> = Vec::new();
    std::mem::swap(procs, &mut input);
    let mut sorted: Vec<ProcessInfo> = Vec::new();
    let ghost mut perm: Seq<int> = Seq::empty();
    let ghost mut done: int = 0;
    while input.len() > 0
        invariant
            0 <= done <= orig.len(),
            input@ == orig.skip(done),
            sorted@.len() == done,
            perm.len() == done,
            is_usage_ordered(sorted@),
            forall|k: int| 0 <= k < perm.len() ==> 0 <= #[trigger] perm[k] < done && sorted@[k] == orig[perm[k]],
            forall|k: int, l: int| 0 <= k < l < perm.len() ==> #[trigger] perm[k] != #[trigger] perm[l],
            forall|k: int, l: int| 0 <= k < l < perm.len() && ties(sorted@[k], sorted@[l]) ==> #[trigger] perm[k] < #[trigger] perm[l],
        decreases input.len(),
    {
        let x = input.remove(0);
        proof {
            assert(x == orig[done]);
            assert(input@ =~= orig.skip(done + 1));
        }
        let xr = cpu_rank(x.cpu_usage_percentage_bits);
        let mut p: usize = 0;
        while p < sorted.len()
            invariant
                p <= sorted.len(),
                xr == usage_rank(x.cpu_usage_percentage_bits),
                forall|k: int| 0 <= k < p ==> !runs_before(x, #[trigger] sorted@[k]),
            ensures
                p <= sorted.len(),
                forall|k: int| 0 <= k < p ==> !runs_before(x, #[trigger] sorted@[k]),
                p < sorted.len() ==> runs_before(x, sorted@[p as int]),
            decreases sorted.len() - p,
        {
            let r = cpu_rank(sorted[p].cpu_usage_percentage_bits);
            if xr > r || (xr == r && x.resident_set_size_bytes > sorted[p].resident_set_size_bytes) {
                break;
            }
            p += 1;
        }
        let ghost before = sorted@;
        proof {
            assert(p < before.len() ==> runs_before(x, before[p as int]));
        }
        sorted.insert(p, x);
        proof {
            let np = perm.insert(p as int, done);
            assert forall|i: int, j: int| 0 <= i < j < sorted@.len() implies !runs_before(#[trigger] sorted@[j], #[trigger] sorted@[i]) by {
                if j < p {
                } else if j == p {
                    assert(sorted@[i] == before[i]);
                } else if i < p {
                    assert(sorted@[j] == before[j - 1]);
                    assert(sorted@[i] == before[i]);
                } else if i == p {
                    assert(sorted@[j] == before[j - 1]);
                    if j - 1 > p {
                        assert(!runs_before(before[j - 1], before[p as int]));
                    }
                } else {
                    assert(sorted@[j] == before[j - 1]);
                    assert(sorted@[i] == before[i - 1]);
                }
            }
            assert forall|k: int| 0 <= k < np.len() implies 0 <= #[trigger] np[k] < done + 1 && sorted@[k] == orig[np[k]] by {
                if k < p {
                    assert(np[k] == perm[k]);
                } else if k > p {
                    assert(np[k] == perm[k - 1]);
                }
            }
            assert forall|k: int, l: int| 0 <= k < l < np.len() implies #[trigger] np[k] != #[trigger] np[l] by {
                if k != p && l != p {
                    let kk = if k < p { k } else { k - 1 };
                    let ll = if l < p { l } else { l - 1 };
                    assert(np[k] == perm[kk]);
                    assert(np[l] == perm[ll]);
                } else if k == p {
                    assert(np[l] == perm[l - 1]);
                } else {
                    if k < p {
                        assert(np[k] == perm[k]);
                    }
                }
            }
            assert forall|k: int, l: int| 0 <= k < l < np.len() && ties(sorted@[k], sorted@[l]) implies #[trigger] np[k] < #[trigger] np[l] by {
                if k != p && l != p {
                    let kk = if k < p { k } else { k - 1 };
                    let ll = if l < p { l } else { l - 1 };
                    assert(np[k] == perm[kk]);
                    assert(np[l] == perm[ll]);
                    assert(sorted@[k] == before[kk]);
                    assert(sorted@[l] == before[ll]);
                } else if k == p {
                    assert(sorted@[l] == before[l - 1]);
                    if l - 1 > p {
                        assert(!runs_before(before[l - 1], before[p as int]));
                    }
                    assert(false);
                } else {
                    assert(np[k] == perm[k]);
                }
            }
            perm = np;
            done = done + 1;
        }
    }
    proof {
        assert(done == orig.len());
        assert(is_stable_arrangement(sorted@, orig, perm));
    }
    *procs = sorted;
}

proof fn lemma_increasing_at_least(perm: Seq<int>, n: int, k: int)
    requires
        perm.len() == n,
        forall|a: int| 0 <= a < n ==> 0 <= #[trigger] perm[a] < n,
        forall|a: int, b: int| 0 <= a < b < n ==> #[trigger] perm[a] < #[trigger] perm[b],
        0 <= k < n,
    ensures
        perm[k] >= k,
    decreases k,
{
    if k > 0 {
        lemma_increasing_at_least(perm, n, k - 1);
        assert(perm[k - 1] < perm[k]);
    }
}

proof fn lemma_increasing_at_most(perm: Seq<int>, n: int, k: int)
    requires
        perm.len() == n,
        forall|a: int| 0 <= a < n ==> 0 <= #[trigger] perm[a] < n,
        forall|a: int, b: int| 0 <= a < b < n ==> #[trigger] perm[a] < #[trigger] perm[b],
        0 <= k < n,
    ensures
        perm[k] <= k,
    decreases n - k,
{
    if k < n - 1 {
        lemma_increasing_at_most(perm, n, k + 1);
        assert(perm[k] < perm[k + 1]);
    }
}

/// Listing an already ordered table leaves it as it is: the only ordered, stable
/// arrangement of an ordered list is the list itself. So sorting twice sorts once.
pub proof fn law_sorting_ordered_list_keeps_it(out: Seq<ProcessInfo>, inp: Seq<ProcessInfo>, perm: Seq<int>)
    requires
        is_usage_ordered(inp),
        is_usage_ordered(out),
        is_stable_arrangement(out, inp, perm),
    ensures
        out == inp,
{
    let n = inp.len() as int;
    assert forall|a: int, b: int| 0 <= a < b < n implies #[trigger] perm[a] < #[trigger] perm[b] by {
        assert(perm[a] != perm[b]);
        if perm[a] > perm[b] {
            let i = perm[b];
            let j = perm[a];
            assert(!runs_before(inp[j], inp[i]));
            assert(!runs_before(out[b], out[a]));
            assert(ties(out[a], out[b]));
        }
    }
    assert forall|k: int| 0 <= k < n implies out[k] == inp[k] by {
        lemma_increasing_at_least(perm, n, k);
        lemma_increasing_at_most(perm, n, k);
    }
    assert(out =~= inp);
}

/// A byte count shown with a binary unit.
pub struct HumanBytes(pub u64);

/// The unit that a byte count is shown in.
#[derive(Debug, PartialEq, Eq, Structural, Clone, Copy)]
pub enum ByteUnit {
    Bytes,
    KiloBytes,
    MegaBytes,
    GigaBytes,
}

pub const KIB: u64 = 1024;
pub const MIB: u64 = 1_048_576;
pub const GIB: u64 = 1_073_741_824;

/// The largest unit that `n` bytes fill at least once.
pub open spec fn unit_for(n: u64) -> ByteUnit {
    if n >= GIB {
        ByteUnit::GigaBytes
    } else if n >= MIB {
        ByteUnit::MegaBytes
    } else if n >= KIB {
        ByteUnit::KiloBytes
    } else {
        ByteUnit::Bytes
    }
}

/// The number of bytes in one `unit`.
pub open spec fn unit_size(unit: ByteUnit) -> u64 {
    match unit {
        ByteUnit::Bytes => 1,
        ByteUnit::KiloBytes => KIB,
        ByteUnit::MegaBytes => MIB,
        ByteUnit::GigaBytes => GIB,
    }
}

/// The symbol written after a figure in `unit`.
pub open spec fn unit_symbol(unit: ByteUnit) -> Seq<char> {
    match unit {
        ByteUnit::Bytes => seq!['B'],
        ByteUnit::KiloBytes => seq!['K', 'B'],
        ByteUnit::MegaBytes => seq!['M', 'B'],
        ByteUnit::GigaBytes => seq!['G', 'B'],
    }
}

impl HumanBytes {
    /// The unit this count is shown in.
    pub fn unit(&self) -> (u: ByteUnit)
        ensures
            u == unit_for(self.0),
    {
        if self.0 >= GIB {
            ByteUnit::GigaBytes
        } else if self.0 >= MIB {
            ByteUnit::MegaBytes
        } else if self.0 >= KIB {
            ByteUnit::KiloBytes
        } else {
            ByteUnit::Bytes
        }
    }
}

impl ByteUnit {
    /// The number of bytes in one unit: the figure shown is the count divided by it.
    pub fn size(&self) -> (d: u64)
        ensures
            d == unit_size(*self),
    {
        match self {
            ByteUnit::Bytes => 1,
            ByteUnit::KiloBytes => KIB,
            ByteUnit::MegaBytes => MIB,
            ByteUnit::GigaBytes => GIB,
        }
    }

    /// The symbol written after the figure.
    pub fn symbol(&self) -> (s: &'static str)
        ensures
            s@ == unit_symbol(*self),
    {
        match self {
            ByteUnit::Bytes => {
                proof { reveal_strlit("B"); }
                "B"
            },
            ByteUnit::KiloBytes => {
                proof { reveal_strlit("KB"); }
                "KB"
            },
            ByteUnit::MegaBytes => {
                proof { reveal_strlit("MB"); }
                "MB"
            },
            ByteUnit::GigaBytes => {
                proof { reveal_strlit("GB"); }
                "GB"
            },
        }
    }
}

/// A byte count is shown with a figure from 1 up to, but not including, 1024 of
/// its unit, except below one kilobyte (shown in bytes) and from 1024 gigabytes on.
pub proof fn law_unit_keeps_figure_small(n: u64)
    ensures
        n < unit_size(unit_for(n)) * 1024 || unit_for(n) == ByteUnit::GigaBytes,
        n >= unit_size(unit_for(n)) || n == 0,
        unit_for(n) == ByteUnit::Bytes <==> n < 1024,
{
}

/// Total CPU ticks of a list of (user, system) tick pairs.
pub open spec fn sum_ticks(s: Seq<(u64, u64)>) -> int
    decreases s.len(),
{
    if s.len() == 0 {
        0
    } else {
        sum_ticks(s.drop_last()) + s.last().0 + s.last().1
    }
}

/// The CPU ticks charged to a process: the sum over its threads, or, when that is
/// zero, the process's own figures (zero when they could not be read).
pub open spec fn process_ticks(task_ticks: Seq<(u64, u64)>, own: Option<(u64, u64)>) -> int {
    if sum_ticks(task_ticks) != 0 {
        sum_ticks(task_ticks)
    } else {
        match own {
            Some(t) => t.0 + t.1,
            None => 0,
        }
    }
}

proof fn lemma_sum_ticks_prefix(s: Seq<(u64, u64)>, i: int)
    requires
        0 <= i <= s.len(),
    ensures
        0 <= sum_ticks(s.take(i)) <= sum_ticks(s),
    decreases s.len(),
{
    if s.len() > 0 {
        if i == s.len() {
            assert(s.take(i) =~= s);
            lemma_sum_ticks_prefix(s.drop_last(), i - 1);
        } else {
            assert(s.drop_last().take(i) =~= s.take(i));
            lemma_sum_ticks_prefix(s.drop_last(), i);
        }
    } else {
        assert(s.take(i) =~= s);
    }
}

/// Adds up the CPU ticks of a process: the (user, system) ticks of its threads, and
/// the process's own ticks, which count only when the threads add up to zero.
pub fn get_process_ticks(task_ticks: &Vec<(u64, u64)>, own: Option<(u64, u64)>) -> (total: u64)
    requires
        sum_ticks(task_ticks@) <= u64::MAX,
        sum_ticks(task_ticks@) == 0 ==> (own matches Some(t) ==> t.0 + t.1 <= u64::MAX),
    ensures
        total == process_ticks(task_ticks@, own),
{
    let mut total: u64 = 0;
    let mut i: usize = 0;
    while i < task_ticks.len()
        invariant
            i <= task_ticks.len(),
            sum_ticks(task_ticks@) <= u64::MAX,
            total == sum_ticks(task_ticks@.take(i as int)),
        decreases task_ticks.len() - i,
    {
        proof {
            assert(task_ticks@.take(i + 1).drop_last() =~= task_ticks@.take(i as int));
            lemma_sum_ticks_prefix(task_ticks@, i + 1);
        }
        let t = task_ticks[i];
        total += t.0 + t.1;
        i += 1;
    }
    assert(task_ticks@.take(i as int) =~= task_ticks@);
    if total == 0 {
        if let Some(t) = own {
            total = t.0 + t.1;
        }
    }
    total
}

/// [`get_process_ticks`] for every input: `None` exactly where the sum does not fit
/// in 64 bits, which the caller reports as an overflow.
pub fn checked_process_ticks(task_ticks: &Vec<(u64, u64)>, own: Option<(u64, u64)>) -> (total: Option<u64>)
    ensures
        match total {
            Some(t) => t == process_ticks(task_ticks@, own),
            None => process_ticks(task_ticks@, own) > u64::MAX || sum_ticks(task_ticks@) > u64::MAX,
        },
{
    let mut sum: u64 = 0;
    let mut i: usize = 0;
    while i < task_ticks.len()
        invariant
            i <= task_ticks.len(),
            sum == sum_ticks(task_ticks@.take(i as int)),
        decreases task_ticks.len() - i,
    {
        proof {
            assert(task_ticks@.take(i + 1).drop_last() =~= task_ticks@.take(i as int));
        }
        let t = task_ticks[i];
        if t.0 > u64::MAX - t.1 || t.0 + t.1 > u64::MAX - sum {
            proof {
                lemma_sum_ticks_prefix(task_ticks@, i + 1);
            }
            return None;
        }
        sum += t.0 + t.1;
        i += 1;
    }
    assert(task_ticks@.take(i as int) =~= task_ticks@);
    if sum == 0 {
        if let Some(t) = own {
            if t.0 > u64::MAX - t.1 {
                return None;
            }
        }
    }
    Some(get_process_ticks(task_ticks, own))
}

/// The page size by which a resident set is counted.
pub const PAGE_SIZE: u64 = 4096;

/// The bytes of a resident set of `pages` pages.
pub fn resident_bytes(pages: u64) -> (bytes: u64)
    requires
        pages * PAGE_SIZE <= u64::MAX,
    ensures
        bytes == pages * PAGE_SIZE,
{
    pages * PAGE_SIZE
}

/// The CPU ticks of every process at the start of a measurement, by process id.
pub struct ProcessBaseline {
    ticks: std::collections::HashMap<i32, u64>,
}

impl View for ProcessBaseline {
    type V = Map<i32, u64>;

    closed spec fn view(&self) -> Map<i32, u64> {
        self.ticks@
    }
}

/// The ticks a process used since the baseline: none for a process that started
/// since, and never fewer than none.
pub open spec fn ticks_since(baseline: Map<i32, u64>, pid: i32, current: u64) -> u64 {
    let previous = if baseline.contains_key(pid) { baseline[pid] } else { current };
    if current >= previous { (current - previous) as u64 } else { 0 }
}

impl ProcessBaseline {
    /// An empty baseline.
    pub fn new() -> (b: Self)
        ensures
            b@ == Map::<i32, u64>::empty(),
    {
        ProcessBaseline { ticks: std::collections::HashMap::new() }
    }

    /// Records the ticks of process `pid`.
    pub fn record(&mut self, pid: i32, ticks: u64)
        ensures
            final(self)@ == old(self)@.insert(pid, ticks),
    {
        broadcast use vstd::std_specs::hash::group_hash_axioms;

        self.ticks.insert(pid, ticks);
    }

    /// The ticks process `pid` used since the baseline, given its ticks now.
    pub fn ticks_since(&self, pid: i32, current: u64) -> (delta: u64)
        ensures
            delta == ticks_since(self@, pid, current),
    {
        broadcast use vstd::std_specs::hash::group_hash_axioms;

        let previous = match self.ticks.get(&pid) {
            Some(t) => *t,
            None => current,
        };
        current.saturating_sub(previous)
    }
}

/// An ordered process table lists finite CPU shares from the largest value down;
/// between equal shares (the two zeros included), resident memory decides, from
/// the largest down.
pub proof fn law_ordered_table_by_share(s: Seq<ProcessInfo>)
    requires
        is_usage_ordered(s),
        forall|i: int| 0 <= i < s.len() ==> is_finite_float(#[trigger] s[i].cpu_usage_percentage_bits),
    ensures
        forall|i: int, j: int| 0 <= i < j < s.len() ==> float_value(#[trigger] s[j].cpu_usage_percentage_bits)
            <= float_value(#[trigger] s[i].cpu_usage_percentage_bits),
        forall|i: int, j: int|
            0 <= i < j < s.len() && float_value(#[trigger] s[j].cpu_usage_percentage_bits)
                == float_value(#[trigger] s[i].cpu_usage_percentage_bits)
            ==> s[j].resident_set_size_bytes <= s[i].resident_set_size_bytes,
{
    assert forall|i: int, j: int| 0 <= i < j < s.len() implies float_value(#[trigger] s[j].cpu_usage_percentage_bits)
        <= float_value(#[trigger] s[i].cpu_usage_percentage_bits) && (float_value(s[j].cpu_usage_percentage_bits)
        == float_value(s[i].cpu_usage_percentage_bits) ==> s[j].resident_set_size_bytes <= s[i].resident_set_size_bytes) by {
        assert(!runs_before(s[j], s[i]));
        law_rank_follows_float_order(s[j].cpu_usage_percentage_bits, s[i].cpu_usage_percentage_bits);
    }
}

/// A table sorted by [`sort_processes`] lists finite CPU shares from the largest
/// value down, and equal shares by resident memory from the largest down.
pub proof fn law_sorted_table_by_share(out: Seq<ProcessInfo>, inp: Seq<ProcessInfo>, perm: Seq<int>)
    requires
        is_usage_ordered(out),
        is_stable_arrangement(out, inp, perm),
        forall|i: int| 0 <= i < inp.len() ==> is_finite_float(#[trigger] inp[i].cpu_usage_percentage_bits),
    ensures
        forall|i: int, j: int| 0 <= i < j < out.len() ==> float_value(#[trigger] out[j].cpu_usage_percentage_bits)
            <= float_value(#[trigger] out[i].cpu_usage_percentage_bits),
{
    assert forall|i: int| 0 <= i < out.len() implies is_finite_float(#[trigger] out[i].cpu_usage_percentage_bits) by {
        assert(out[i] == inp[perm[i]]);
    }
    law_ordered_table_by_share(out);
}

/// The ticks of a list of threads add up: one thread counts its user and system
/// ticks, no thread counts nothing, and two lists count the sum of their counts.
pub proof fn law_tick_sum_adds_up(a: Seq<(u64, u64)>, b: Seq<(u64, u64)>, t: (u64, u64))
    ensures
        sum_ticks(Seq::<(u64, u64)>::empty()) == 0,
        sum_ticks(seq![t]) == t.0 + t.1,
        sum_ticks(a + b) == sum_ticks(a) + sum_ticks(b),
    decreases b.len(),
{
    assert(seq![t].drop_last() =~= Seq::<(u64, u64)>::empty());
    if b.len() > 0 {
        law_tick_sum_adds_up(a, b.drop_last(), t);
        assert((a + b).drop_last() =~= a + b.drop_last());
    } else {
        assert(a + b =~= a);
    }
}

/// Ticks since the baseline: a process recorded with `t` ticks that now has `c`
/// has used `c - t` (none when `c < t`); a process not in the baseline has used none;
/// recording one process does not change what another has used.
pub proof fn law_ticks_since_baseline(baseline: Map<i32, u64>, pid: i32, other: i32, t: u64, c: u64)
    ensures
        ticks_since(baseline.insert(pid, t), pid, c) == if c >= t { c - t } else { 0 },
        !baseline.contains_key(pid) ==> ticks_since(baseline, pid, c) == 0,
        other != pid ==> ticks_since(baseline.insert(pid, t), other, c) == ticks_since(baseline, other, c),
{
}

} // verus!
