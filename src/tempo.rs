//! Stepped tempo ramps: a linear tempo change approximated by spans of
//! constant playback rate, and their filter subgraph.
use vstd::prelude::*;
use vstd::arithmetic::div_mod::*;
use vstd::arithmetic::mul::*;
use crate::text::{digits, micros_text, micros_to_text, nat_text, rate_text, rate_to_text};
use crate::timing::lerp;
use crate::ffmpeg::texts;

verus! {

/// A span `[begin, end)` of the input (microseconds) played at `scale`
/// billionths of its native rate.
#[derive(Debug, Clone, Copy, PartialEq, Eq, Structural)]
pub struct TempoSpan {
    pub begin: i64,
    pub end: i64,
    pub scale: u64,
}

/// The rate at the fraction `k / n` of the way from rate `a` to rate `b`,
/// rounded towards `a`.
pub open spec fn rate_at(a: int, b: int, k: int, n: int) -> int {
    if a <= b {
        a + (b - a) * k / n
    } else {
        a - (a - b) * k / n
    }
}

/// Span `i` (from zero) of `n` between `from` and `to`: its bounds are the
/// interpolated times at `i / n` and `(i + 1) / n`, and its rate is the
/// interpolated rate at its start, rounded towards the start rate.
pub open spec fn ramp_span(from: (i64, u64), to: (i64, u64), n: int, i: int) -> TempoSpan {
    TempoSpan {
        begin: lerp(from.0 as int, to.0 as int, i, n) as i64,
        end: lerp(from.0 as int, to.0 as int, i + 1, n) as i64,
        scale: rate_at(from.1 as int, to.1 as int, i, n) as u64,
    }
}

/// The `n` spans between `from` and `to`.
pub open spec fn ramp_spans(from: (i64, u64), to: (i64, u64), n: int) -> Seq<TempoSpan> {
    Seq::new(n as nat, |i: int| ramp_span(from, to, n, i))
}

/// A linear tempo change over a time range, as contiguous spans of constant
/// rate.
#[derive(Debug)]
pub struct SteppedTempoFilter {
    pub spans: Vec<TempoSpan>,
}

proof fn lemma_lerp_bounds(a: int, b: int, k: int, n: int)
    requires
        0 <= k <= n,
        n > 0,
    ensures
        a <= b ==> a <= lerp(a, b, k, n) <= b,
        b < a ==> b <= lerp(a, b, k, n) <= a,
        k == 0 ==> lerp(a, b, k, n) == a,
        k == n ==> lerp(a, b, k, n) == b,
{
    if a <= b {
        assert(0 <= (b - a) * k <= (b - a) * n) by (nonlinear_arith)
            requires
                0 <= k <= n,
                a <= b,
        ;
        lemma_div_is_ordered(0, (b - a) * k, n);
        lemma_div_is_ordered((b - a) * k, (b - a) * n, n);
        lemma_div_multiples_vanish(b - a, n);
        lemma_mul_is_commutative(b - a, n);
        assert(0int / n == 0);
    } else {
        assert((a - b) * n <= (b - a) * k * (-1) + (a - b) * n) by (nonlinear_arith)
            requires
                0 <= k <= n,
                b < a,
        ;
        assert(-((a - b) * n) <= (b - a) * k <= 0) by (nonlinear_arith)
            requires
                0 <= k <= n,
                b < a,
        ;
        lemma_div_is_ordered(-((a - b) * n), (b - a) * k, n);
        lemma_div_is_ordered((b - a) * k, 0, n);
        assert(-((a - b) * n) == (b - a) * n) by (nonlinear_arith);
        lemma_div_multiples_vanish(b - a, n);
        lemma_mul_is_commutative(b - a, n);
        assert(0int / n == 0);
    }
    if k == 0 {
        assert((b - a) * k == 0);
        assert(0int / n == 0);
    }
    if k == n {
        lemma_div_multiples_vanish(b - a, n);
        lemma_mul_is_commutative(b - a, n);
    }
}

/// A part `k / n` (with `k < n`) of a positive drop `d` is less than `d`,
/// and grows with `k`.
proof fn lemma_part_of(d: int, k: int, k2: int, n: int)
    requires
        d > 0,
        0 <= k <= k2 < n,
    ensures
        0 <= d * k / n <= d * k2 / n < d,
{
    assert(0 <= d * k <= d * k2 < d * n) by (nonlinear_arith)
        requires
            d > 0,
            0 <= k <= k2 < n,
    ;
    lemma_div_is_ordered(0, d * k, n);
    lemma_div_is_ordered(d * k, d * k2, n);
    assert(0int / n == 0);
    lemma_fundamental_div_mod(d * k2, n);
    let q = d * k2 / n;
    assert(q < d) by (nonlinear_arith)
        requires
            d * k2 == n * q + (d * k2) % n,
            0 <= (d * k2) % n,
            d * k2 < d * n,
            n > 0,
    ;
}

/// Every span rate lies between the start rate (included) and the end
/// rate (excluded), and moves monotonically from the one towards the
/// other.
proof fn lemma_rate_bounds(a: int, b: int, k: int, k2: int, n: int)
    requires
        0 <= k <= k2 < n,
    ensures
        a < b ==> a <= rate_at(a, b, k, n) <= rate_at(a, b, k2, n) < b,
        b < a ==> b < rate_at(a, b, k2, n) <= rate_at(a, b, k, n) <= a,
        a == b ==> rate_at(a, b, k, n) == a,
        k == 0 ==> rate_at(a, b, k, n) == a,
{
    if a < b {
        lemma_part_of(b - a, k, k2, n);
    } else if b < a {
        lemma_part_of(a - b, k, k2, n);
    } else {
        assert((b - a) * k == 0);
        assert(0int / n == 0);
    }
    if k == 0 {
        assert((b - a) * k == 0);
        assert((a - b) * k == 0);
        assert(0int / n == 0);
    }
}

fn time_at(t0: i64, t1: i64, k: usize, n: usize) -> (r: i64)
    requires
        t0 < t1,
        0 <= k <= n,
        n > 0,
    ensures
        r == lerp(t0 as int, t1 as int, k as int, n as int),
{
    let d: u128 = (t1 as i128 - t0 as i128) as u128;
    proof {
        assert(d * k <= 0xffff_ffff_ffff_ffff_ffff_ffff_ffff_ffff) by (nonlinear_arith)
            requires
                d <= 0xffff_ffff_ffff_ffff,
                k <= 0xffff_ffff_ffff_ffff,
        ;
        lemma_lerp_bounds(t0 as int, t1 as int, k as int, n as int);
    }
    let q: u128 = d * (k as u128) / (n as u128);
    (t0 as i128 + q as i128) as i64
}

fn scale_at(s0: u64, s1: u64, k: usize, n: usize) -> (r: u64)
    requires
        0 <= k < n,
    ensures
        r == rate_at(s0 as int, s1 as int, k as int, n as int),
{
    proof {
        lemma_rate_bounds(s0 as int, s1 as int, k as int, k as int, n as int);
    }
    let d: u128 = if s0 <= s1 {
        (s1 - s0) as u128
    } else {
        (s0 - s1) as u128
    };
    proof {
        assert(d * k <= 0xffff_ffff_ffff_ffff_ffff_ffff_ffff_ffff) by (nonlinear_arith)
            requires
                d <= 0xffff_ffff_ffff_ffff,
                k <= 0xffff_ffff_ffff_ffff,
        ;
    }
    let q: u128 = d * (k as u128) / (n as u128);
    if s0 <= s1 {
        (s0 as u128 + q) as u64
    } else {
        (s0 as u128 - q) as u64
    }
}

/// The pad label `[stf_k]`.
pub open spec fn stf_pad(k: int) -> Seq<char> {
    "[stf_"@ + digits(k as nat) + "]"@
}

/// The labels `[stf_(3j + offset)]` for `j` in `0..n`, run together.
pub open spec fn pad_run(n: int, offset: int) -> Seq<char>
    decreases n,
{
    if n <= 0 {
        Seq::empty()
    } else {
        pad_run(n - 1, offset) + stf_pad(3 * (n - 1) + offset)
    }
}

/// Node `j` that cuts span `sp` out of its copy of the input and restarts
/// its timestamps at zero.
pub open spec fn trim_filter(j: int, sp: TempoSpan) -> Seq<char> {
    stf_pad(3 * j + 1) + " atrim="@ + micros_text(sp.begin as int) + ":"@ + micros_text(
        sp.end as int,
    ) + ",asetpts=N/SR/TB "@ + stf_pad(3 * j + 2)
}

/// Node `j` that plays the trimmed span `sp` at its rate.
pub open spec fn tempo_filter(j: int, sp: TempoSpan) -> Seq<char> {
    stf_pad(3 * j + 2) + " atempo="@ + rate_text(sp.scale as nat) + " "@ + stf_pad(3 * j + 3)
}

/// The node that copies the input pad into one copy per span.
pub open spec fn split_filter(input: Seq<char>, n: int) -> Seq<char> {
    "["@ + input + "]asplit="@ + digits(n as nat) + " "@ + pad_run(n, 1)
}

/// The node that joins the rate-adjusted spans, in span order, into the
/// output pad.
pub open spec fn concat_filter(n: int, output: Seq<char>) -> Seq<char> {
    pad_run(n, 3) + " concat=n="@ + digits(n as nat) + ":v=0:a=1 ["@ + output + "]"@
}

/// The whole subgraph of a ramp with these spans, node by node.
pub open spec fn ramp_filters(spans: Seq<TempoSpan>, input: Seq<char>, output: Seq<char>) -> Seq<
    Seq<char>,
> {
    let n = spans.len() as int;
    seq![split_filter(input, n)] + Seq::new(
        (2 * n) as nat,
        |k: int|
            if k % 2 == 0 {
                trim_filter(k / 2, spans[k / 2])
            } else {
                tempo_filter(k / 2, spans[k / 2])
            },
    ) + seq![concat_filter(n, output)]
}

fn stf_label(k: u128) -> (r: String)
    ensures
        r@ == stf_pad(k as int),
{
    let mut r = String::from_str("[stf_");
    r.append(nat_text(k).as_str());
    r.append("]");
    r
}

impl SteppedTempoFilter {
    /// The filter subgraph that plays `input` through the ramp into
    /// `output`: a split into one copy per span, then for each span a trim
    /// node and a rate node, then a join of the spans in order.
    pub fn to_filters(&self, input: &str, output: &str) -> (r: Vec<String>)
        ensures
            texts(r@) == ramp_filters(self.spans@, input@, output@),
            r@.len() == 2 * self.spans@.len() + 2,
            r@[0]@ == split_filter(input@, self.spans@.len() as int),
            forall|j: int|
                0 <= j < self.spans@.len() ==> r@[1 + 2 * j]@ == trim_filter(j, self.spans@[j])
                    && r@[2 + 2 * j]@ == tempo_filter(j, self.spans@[j]),
            r@[2 * self.spans@.len() as int + 1]@ == concat_filter(self.spans@.len() as int, output@),
    {
        let n = self.spans.len();
        let mut filters: Vec<String> = Vec::new();
        let mut src_labels = String::new();
        let mut dst_labels = String::new();
        let mut j: usize = 0;
        while j < n
            invariant
                n == self.spans@.len(),
                0 <= j <= n,
                filters@.len() == 2 * j,
                forall|i: int|
                    0 <= i < j ==> filters@[2 * i]@ == trim_filter(i, self.spans@[i])
                        && filters@[2 * i + 1]@ == tempo_filter(i, self.spans@[i]),
                src_labels@ == pad_run(j as int, 1),
                dst_labels@ == pad_run(j as int, 3),
            decreases n - j,
        {
            let sp = self.spans[j];
            let k: u128 = 3 * (j as u128);
            let mut trim = stf_label(k + 1);
            trim.append(" atrim=");
            trim.append(micros_to_text(sp.begin).as_str());
            trim.append(":");
            trim.append(micros_to_text(sp.end).as_str());
            trim.append(",asetpts=N/SR/TB ");
            trim.append(stf_label(k + 2).as_str());
            filters.push(trim);
            src_labels.append(stf_label(k + 1).as_str());
            let mut tempo = stf_label(k + 2);
            tempo.append(" atempo=");
            tempo.append(rate_to_text(sp.scale).as_str());
            tempo.append(" ");
            tempo.append(stf_label(k + 3).as_str());
            filters.push(tempo);
            dst_labels.append(stf_label(k + 3).as_str());
            j += 1;
        }
        let mut split = String::from_str("[");
        split.append(input);
        split.append("]asplit=");
        split.append(nat_text(n as u128).as_str());
        split.append(" ");
        split.append(src_labels.as_str());
        filters.insert(0, split);
        let mut join = dst_labels;
        join.append(" concat=n=");
        join.append(nat_text(n as u128).as_str());
        join.append(":v=0:a=1 [");
        join.append(output);
        join.append("]");
        filters.push(join);
        proof {
            let want = ramp_filters(self.spans@, input@, output@);
            assert forall|k: int| 0 <= k < filters@.len() implies texts(filters@)[k] == want[k] by {
                if 1 <= k < 2 * n + 1 {
                    let m = k - 1;
                    let j = m / 2;
                    assert(m % 2 == 0 ==> k == 1 + 2 * j);
                    assert(m % 2 == 1 ==> k == 2 + 2 * j);
                }
            }
            assert(texts(filters@) =~= want);
        }
        filters
    }

    /// Spans `steps` equal parts of the time range from `from.0` to `to.0`;
    /// each part plays at the rate interpolated at its start between
    /// `from.1` and `to.1` (rates in billionths).
    pub fn new(from: (i64, u64), to: (i64, u64), steps: usize) -> (r: Self)
        requires
            steps >= 1,
            from.0 < to.0,
        ensures
            r.spans@ == ramp_spans(from, to, steps as int),
            r.spans@.len() == steps,
            forall|i: int| 0 <= i < steps ==> r.spans@[i] == ramp_span(from, to, steps as int, i),
            r.spans@[0].begin == from.0,
            r.spans@[steps - 1].end == to.0,
            forall|i: int| 0 <= i < steps - 1 ==> r.spans@[i].end == r.spans@[i + 1].begin,
            forall|i: int| 0 <= i < steps ==> r.spans@[i].begin <= r.spans@[i].end,
            r.spans@[0].scale == from.1,
            forall|i: int|
                0 <= i < steps ==> {
                    let v = #[trigger] r.spans@[i].scale;
                    &&& from.1 < to.1 ==> from.1 <= v < to.1
                    &&& to.1 < from.1 ==> to.1 < v <= from.1
                    &&& from.1 == to.1 ==> v == from.1
                },
            forall|i: int, j: int|
                0 <= i <= j < steps ==> {
                    &&& from.1 <= to.1 ==> r.spans@[i].scale <= r.spans@[j].scale
                    &&& to.1 <= from.1 ==> r.spans@[j].scale <= r.spans@[i].scale
                },
            steps == 1 ==> r.spans@ == seq![TempoSpan { begin: from.0, end: to.0, scale: from.1 }],
    {
        let mut spans: Vec<TempoSpan> = Vec::new();
        let mut i: usize = 0;
        while i < steps
            invariant
                0 <= i <= steps,
                from.0 < to.0,
                spans@.len() == i,
                forall|j: int| 0 <= j < i ==> spans@[j] == ramp_span(from, to, steps as int, j),
            decreases steps - i,
        {
            let begin = time_at(from.0, to.0, i, steps);
            let end = time_at(from.0, to.0, i + 1, steps);
            let scale = scale_at(from.1, to.1, i, steps);
            spans.push(TempoSpan { begin, end, scale });
            i += 1;
        }
        proof {
            lemma_lerp_bounds(from.0 as int, to.0 as int, 0, steps as int);
            lemma_lerp_bounds(from.0 as int, to.0 as int, steps as int, steps as int);
            lemma_rate_bounds(from.1 as int, to.1 as int, 0, 0, steps as int);
            assert forall|i: int| 0 <= i < steps implies {
                let v = #[trigger] spans@[i].scale;
                &&& from.1 < to.1 ==> from.1 <= v < to.1
                &&& to.1 < from.1 ==> to.1 < v <= from.1
                &&& from.1 == to.1 ==> v == from.1
            } by {
                lemma_rate_bounds(from.1 as int, to.1 as int, i, i, steps as int);
            }
            assert forall|i: int, j: int| 0 <= i <= j < steps implies {
                &&& from.1 <= to.1 ==> spans@[i].scale <= spans@[j].scale
                &&& to.1 <= from.1 ==> spans@[j].scale <= spans@[i].scale
            } by {
                lemma_rate_bounds(from.1 as int, to.1 as int, i, j, steps as int);
            }
            assert forall|i: int| 0 <= i < steps implies spans@[i].begin <= spans@[i].end by {
                lemma_lerp_bounds(from.0 as int, to.0 as int, i, steps as int);
                lemma_lerp_bounds(from.0 as int, to.0 as int, i + 1, steps as int);
                assert((to.0 - from.0) * i <= (to.0 - from.0) * (i + 1)) by (nonlinear_arith)
                    requires
                        from.0 < to.0,
                        i >= 0,
                ;
                lemma_div_is_ordered(
                    (to.0 - from.0) * i,
                    (to.0 - from.0) * (i + 1),
                    steps as int,
                );
            }
        }
        assert(spans@ =~= ramp_spans(from, to, steps as int));
        if steps == 1 {
            proof {
                lemma_single_step(from, to);
            }
            assert(spans@ =~= seq![TempoSpan { begin: from.0, end: to.0, scale: from.1 }]);
        }
        SteppedTempoFilter { spans }
    }
}

} // verus!

verus! {

/// A ramp of one step is a single span over the whole range at the start
/// rate.
pub proof fn lemma_single_step(from: (i64, u64), to: (i64, u64))
    requires
        from.0 < to.0,
    ensures
        ramp_span(from, to, 1, 0) == (TempoSpan { begin: from.0, end: to.0, scale: from.1 }),
{
    lemma_lerp_bounds(from.0 as int, to.0 as int, 0, 1);
    lemma_lerp_bounds(from.0 as int, to.0 as int, 1, 1);
    lemma_rate_bounds(from.1 as int, to.1 as int, 0, 0, 1);
}

} // verus!
