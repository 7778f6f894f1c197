use vstd::prelude::*;
use crate::similarity::SCALE;
use crate::tokenizer::chars_to_string;

verus! {

/// Finished results: every score, their rounded mean, the running bounds and the
/// number of decimal digits kept. Scores are in units of `1 / SCALE`.
pub struct Similarities {
    pub results: Vec<u64>,
    pub avg: u64,
    pub min: u64,
    pub max: u64,
    pub precision: usize,
}

/// Which side of a number's decimal anchor a shift measures.
pub enum ShiftDirection {
    Left,
    Right,
}

/// The decimal digit `d` (`d < 10`).
pub open spec fn digit_char(d: nat) -> char {
    if d == 0 {
        '0'
    } else if d == 1 {
        '1'
    } else if d == 2 {
        '2'
    } else if d == 3 {
        '3'
    } else if d == 4 {
        '4'
    } else if d == 5 {
        '5'
    } else if d == 6 {
        '6'
    } else if d == 7 {
        '7'
    } else if d == 8 {
        '8'
    } else {
        '9'
    }
}

/// Decimal text of a natural number, without leading zeros.
pub open spec fn nat_text(n: nat) -> Seq<char>
    decreases n,
{
    if n < 10 {
        seq![digit_char(n)]
    } else {
        nat_text(n / 10).push(digit_char(n % 10))
    }
}

/// The digits after the point of a fraction in thousandths, trailing zeros dropped.
pub open spec fn fraction_text(f: nat) -> Seq<char> {
    let d1 = f / 100;
    let d2 = (f / 10) % 10;
    let d3 = f % 10;
    if d3 != 0 {
        seq![digit_char(d1), digit_char(d2), digit_char(d3)]
    } else if d2 != 0 {
        seq![digit_char(d1), digit_char(d2)]
    } else {
        seq![digit_char(d1)]
    }
}

/// Shortest decimal text of a score in units of `1 / SCALE`: `0`, `0.2`, `0.215`, `1`.
pub open spec fn score_text(v: nat) -> Seq<char> {
    let f = v % (SCALE as nat);
    if f == 0 {
        nat_text(v / (SCALE as nat))
    } else {
        nat_text(v / (SCALE as nat)) + seq!['.'] + fraction_text(f)
    }
}

/// Characters of a label left of its anchor, for a label of `size` characters.
pub open spec fn shift_left_of(size: nat) -> nat {
    if size < 3 {
        0
    } else {
        (size / 2 + size % 2 - 1) as nat
    }
}

/// Characters of a label right of its anchor, for a label of `size` characters.
pub open spec fn shift_right_of(size: nat) -> nat {
    if size < 3 {
        0
    } else {
        (size - shift_left_of(size) - 1) as nat
    }
}

/// The shift of the label of `v` in the given direction.
pub open spec fn shift_spec(v: nat, left: bool) -> nat {
    if left {
        shift_left_of(score_text(v).len())
    } else {
        shift_right_of(score_text(v).len())
    }
}

/// `a - b`, or zero where `b > a`.
pub open spec fn sat_sub(a: int, b: int) -> nat {
    if a > b {
        (a - b) as nat
    } else {
        0
    }
}

/// `n` copies of `c`.
pub open spec fn repeat(c: char, n: nat) -> Seq<char> {
    Seq::new(n, |_i: int| c)
}

/// An axis segment of `w` columns ending in a tick; nothing where `w` is zero.
pub open spec fn segment(w: nat) -> Seq<char> {
    if w == 0 {
        Seq::empty()
    } else {
        repeat('-', (w - 1) as nat).push('|')
    }
}

/// Scores as text, one per line, with no line break after the last.
pub open spec fn lines_text(s: Seq<u64>) -> Seq<char>
    decreases s.len(),
{
    if s.len() == 0 {
        Seq::empty()
    } else if s.len() == 1 {
        score_text(s[0] as nat)
    } else {
        lines_text(s.drop_last()) + seq!['\n'] + score_text(s.last() as nat)
    }
}

/// The text `Mean: `.
pub open spec fn mean_label() -> Seq<char> {
    seq!['M', 'e', 'a', 'n', ':', ' ']
}

/// The text `Total similarities: `.
pub open spec fn total_label() -> Seq<char> {
    seq![
        'T', 'o', 't', 'a', 'l', ' ', 's', 'i', 'm', 'i', 'l', 'a', 'r', 'i', 't', 'i', 'e', 's',
        ':', ' ',
    ]
}

impl Similarities {
    /// Shift of the minimum's label to the left of its tick.
    pub open spec fn min_left(&self) -> nat {
        shift_spec(self.min as nat, true)
    }

    /// Shift of the maximum's label to the right of its tick.
    pub open spec fn max_right(&self) -> nat {
        shift_spec(self.max as nat, false)
    }

    /// Columns from the minimum's tick to the mean's tick: the room between the label
    /// shifts, split where the mean lies between the bounds.
    pub open spec fn min_avg_width_spec(&self, width: nat) -> nat {
        let span = sat_sub(sat_sub(width as int, self.min_left() as int) as int, self.max_right() as int);
        if self.max <= self.min {
            0
        } else if self.avg >= self.max {
            span
        } else {
            span * sat_sub(self.avg as int, self.min as int) / ((self.max - self.min) as nat)
        }
    }

    /// Columns from the mean's tick to the maximum's tick.
    pub open spec fn avg_max_width_spec(&self, width: nat) -> nat {
        sat_sub(
            sat_sub(sat_sub(width as int, self.max_right() as int) as int, (self.min_left() + 1) as int) as int,
            self.min_avg_width_spec(width) as int,
        )
    }

    /// Columns of the histogram.
    pub open spec fn canvas_width_spec(&self, width: nat) -> nat {
        self.min_avg_width_spec(width) + self.avg_max_width_spec(width) + 1
    }

    /// The axis line with ticks at the minimum, mean and maximum, a line break, and
    /// the three labels under their ticks.
    pub open spec fn axis_text(&self, width: nat) -> Seq<char> {
        let w1 = self.min_avg_width_spec(width);
        let w2 = self.avg_max_width_spec(width);
        repeat('-', self.min_left()).push('|') + segment(w1) + segment(w2) + repeat(
            '-',
            self.max_right(),
        ) + seq!['\n'] + score_text(self.min as nat) + repeat(
            ' ',
            sat_sub(
                w1 - shift_spec(self.min as nat, false) - shift_spec(self.avg as nat, true),
                1,
            ),
        ) + score_text(self.avg as nat) + repeat(
            ' ',
            sat_sub(
                w2 - shift_spec(self.avg as nat, false) - shift_spec(self.max as nat, true),
                1,
            ),
        ) + score_text(self.max as nat)
    }

    /// Per column of the histogram, how many scores fall in it.
    pub open spec fn freqs_spec(&self, width: nat) -> Seq<usize> {
        let cw = self.canvas_width_spec(width);
        Seq::new(
            cw,
            |b: int| count_bucket(self.results@, self.min as nat, self.max as nat, cw, b as nat) as usize,
        )
    }

    /// The histogram: rows from the top, each after a line break and the minimum's
    /// left shift; the height is 30% of the width.
    pub open spec fn histogram_text(&self, width: nat) -> Seq<char> {
        let cw = self.canvas_width_spec(width);
        let height = cw * 30 / 100;
        let freqs = self.freqs_spec(width);
        hist_text(freqs, max_of(freqs), height, self.min_left(), height)
    }

    /// The full distribution display for a canvas of `width` columns.
    pub open spec fn display_text(&self, width: nat) -> Seq<char> {
        self.histogram_text(width) + seq!['\n'] + self.axis_text(width) + seq!['\n'] + mean_label()
            + score_text(self.avg as nat) + seq!['\n'] + total_label() + nat_text(
            self.results@.len(),
        ) + seq!['\n']
    }

    /// Results made of the given parts.
    pub fn new(results: Vec<u64>, avg: u64, min: u64, max: u64, precision: usize) -> (r: Similarities)
        ensures
            r.results == results,
            r.avg == avg,
            r.min == min,
            r.max == max,
            r.precision == precision,
    {
        Similarities { results, avg, min, max, precision }
    }

    /// Every score as text, one per line, with no line break after the last.
    pub fn to_string(&self) -> (r: String)
        ensures
            r@ == lines_text(self.results@),
    {
        let mut out: Vec<char> = Vec::new();
        let mut i: usize = 0;
        while i < self.results.len()
            invariant
                0 <= i <= self.results@.len(),
                out@ == lines_text(self.results@.take(i as int)),
            decreases self.results@.len() - i,
        {
            let ghost before = out@;
            assert(self.results@.take(i as int + 1).drop_last() =~= self.results@.take(i as int));
            if i > 0 {
                out.push('\n');
            }
            let text = score_to_text(self.results[i]);
            push_all(&mut out, &text);
            proof {
                if i == 0 {
                    assert(out@ =~= lines_text(self.results@.take(1)));
                } else {
                    assert(out@ =~= before + seq!['\n'] + score_text(self.results@[i as int] as nat));
                }
            }
            i += 1;
        }
        assert(self.results@.take(self.results@.len() as int) =~= self.results@);
        chars_to_string(&out)
    }

    /// Columns from the minimum's tick to the mean's tick.
    fn calculate_min_avg_width(&self, width: usize) -> (r: usize)
        ensures
            r == self.min_avg_width_spec(width as nat),
            r <= width,
    {
        let min_shift_left = calculate_shift(self.min, ShiftDirection::Left);
        let max_shift_right = calculate_shift(self.max, ShiftDirection::Right);
        let span: usize = if width > min_shift_left {
            width - min_shift_left
        } else {
            0
        };
        let span: usize = if span > max_shift_right {
            span - max_shift_right
        } else {
            0
        };
        if self.max <= self.min {
            0
        } else if self.avg >= self.max {
            span
        } else {
            let above: u64 = if self.avg > self.min {
                self.avg - self.min
            } else {
                0
            };
            let range: u64 = self.max - self.min;
            assert((span as int) * (above as int) / (range as int) <= span as int) by (nonlinear_arith)
                requires
                    above < range,
                    range > 0,
            ;
            assert((span as int) * (above as int) <= (usize::MAX as int) * (u64::MAX as int))
                by (nonlinear_arith)
                requires
                    span <= usize::MAX,
                    above <= u64::MAX,
            ;
            let v: u128 = (span as u128) * (above as u128) / (range as u128);
            v as usize
        }
    }

    /// Columns from the mean's tick to the maximum's tick.
    fn calculate_avg_max_width(&self, width: usize) -> (r: usize)
        ensures
            r == self.avg_max_width_spec(width as nat),
            r + self.min_avg_width_spec(width as nat) <= width,
    {
        let min_shift_left = calculate_shift(self.min, ShiftDirection::Left);
        let max_shift_right = calculate_shift(self.max, ShiftDirection::Right);
        let min_avg_width = self.calculate_min_avg_width(width);
        let a: usize = if width > max_shift_right {
            width - max_shift_right
        } else {
            0
        };
        let a: usize = if a > min_shift_left {
            a - min_shift_left - 1
        } else {
            0
        };
        if a > min_avg_width {
            a - min_avg_width
        } else {
            0
        }
    }

    /// Columns of the histogram.
    fn canvas_width(&self, width: usize) -> (r: usize)
        requires
            width < usize::MAX,
        ensures
            r == self.canvas_width_spec(width as nat),
            r <= width + 1,
    {
        let min_avg_width = self.calculate_min_avg_width(width);
        let avg_max_width = self.calculate_avg_max_width(width);
        min_avg_width + avg_max_width + 1
    }

    /// Bucket of `val` among `canvas_width` columns.
    fn sim_to_axis_x_units(&self, val: u64, canvas_width: usize) -> (r: usize)
        requires
            canvas_width >= 1,
        ensures
            r == bucket(val as nat, self.min as nat, self.max as nat, canvas_width as nat),
            r < canvas_width,
    {
        if self.max <= self.min {
            return 0;
        }
        let d: u64 = if val > self.min {
            val - self.min
        } else {
            0
        };
        assert((d as int) * (canvas_width as int) <= u128::MAX) by (nonlinear_arith)
            requires
                d <= u64::MAX,
                canvas_width <= u64::MAX,
        ;
        let b: u128 = (d as u128) * (canvas_width as u128) / ((self.max - self.min) as u128);
        if b >= canvas_width as u128 {
            canvas_width - 1
        } else {
            b as usize
        }
    }

    /// The axis line and the label line below it.
    fn build_x_axis(&self, width: usize) -> (r: Vec<char>)
        ensures
            r@ == self.axis_text(width as nat),
    {
        let min_shift_left = calculate_shift(self.min, ShiftDirection::Left);
        let min_shift_right = calculate_shift(self.min, ShiftDirection::Right);
        let avg_shift_left = calculate_shift(self.avg, ShiftDirection::Left);
        let avg_shift_right = calculate_shift(self.avg, ShiftDirection::Right);
        let max_shift_left = calculate_shift(self.max, ShiftDirection::Left);
        let max_shift_right = calculate_shift(self.max, ShiftDirection::Right);
        let min_avg_width = self.calculate_min_avg_width(width);
        let avg_max_width = self.calculate_avg_max_width(width);
        let mut out: Vec<char> = Vec::new();
        push_repeat(&mut out, '-', min_shift_left);
        out.push('|');
        push_segment(&mut out, min_avg_width);
        push_segment(&mut out, avg_max_width);
        push_repeat(&mut out, '-', max_shift_right);
        out.push('\n');
        let min_text = score_to_text(self.min);
        push_all(&mut out, &min_text);
        let gap1: i128 = min_avg_width as i128 - min_shift_right as i128 - avg_shift_left as i128 - 1;
        push_repeat(&mut out, ' ', if gap1 > 0 { gap1 as usize } else { 0 });
        let avg_text = score_to_text(self.avg);
        push_all(&mut out, &avg_text);
        let gap2: i128 = avg_max_width as i128 - avg_shift_right as i128 - max_shift_left as i128 - 1;
        push_repeat(&mut out, ' ', if gap2 > 0 { gap2 as usize } else { 0 });
        let max_text = score_to_text(self.max);
        push_all(&mut out, &max_text);
        assert(out@ =~= self.axis_text(width as nat));
        out
    }

    /// How many scores fall in each of `canvas_width` columns.
    fn count_buckets(&self, canvas_width: usize) -> (r: Vec<usize>)
        requires
            canvas_width >= 1,
        ensures
            r@ =~= Seq::new(
                canvas_width as nat,
                |b: int| count_bucket(self.results@, self.min as nat, self.max as nat, canvas_width as nat, b as nat) as usize,
            ),
    {
        let ghost cw = canvas_width as nat;
        let ghost mn = self.min as nat;
        let ghost mx = self.max as nat;
        let mut counts: Vec<usize> = Vec::new();
        let mut b: usize = 0;
        while b < canvas_width
            invariant
                0 <= b <= canvas_width,
                counts@.len() == b,
                forall|p: int| 0 <= p < b ==> #[trigger] counts@[p] == 0,
            decreases canvas_width - b,
        {
            counts.push(0);
            b += 1;
        }
        let mut k: usize = 0;
        while k < self.results.len()
            invariant
                canvas_width >= 1,
                cw == canvas_width,
                mn == self.min,
                mx == self.max,
                0 <= k <= self.results@.len(),
                counts@.len() == canvas_width,
                forall|p: int|
                    0 <= p < canvas_width ==> #[trigger] counts@[p] == count_bucket(
                        self.results@.take(k as int),
                        mn,
                        mx,
                        cw,
                        p as nat,
                    ),
                forall|p: int| 0 <= p < canvas_width ==> #[trigger] counts@[p] <= k,
            decreases self.results@.len() - k,
        {
            let index = self.sim_to_axis_x_units(self.results[k], canvas_width);
            let ghost before = counts@;
            let c = counts[index];
            counts.set(index, c + 1);
            proof {
                let t = self.results@.take(k as int + 1);
                assert(t.drop_last() =~= self.results@.take(k as int));
                assert(t.last() == self.results@[k as int]);
                assert forall|p: int| 0 <= p < canvas_width implies #[trigger] counts@[p] == count_bucket(
                    t,
                    mn,
                    mx,
                    cw,
                    p as nat,
                ) by {
                    assert(count_bucket(t, mn, mx, cw, p as nat) == count_bucket(
                        self.results@.take(k as int),
                        mn,
                        mx,
                        cw,
                        p as nat,
                    ) + if bucket(t.last() as nat, mn, mx, cw) == p as nat {
                        1nat
                    } else {
                        0nat
                    });
                    if p != index {
                        assert(counts@[p] == before[p]);
                    }
                }
            }
            k += 1;
        }
        assert(self.results@.take(self.results@.len() as int) =~= self.results@);
        counts
    }

    /// The histogram rows, top row first, each after a line break and an indent.
    fn build_distributions(&self, width: usize) -> (r: Vec<char>)
        requires
            width < usize::MAX,
        ensures
            r@ == self.histogram_text(width as nat),
    {
        let canvas_width = self.canvas_width(width);
        let canvas_height: usize = ((canvas_width as u128) * 30 / 100) as usize;
        let counts = self.count_buckets(canvas_width);
        assert(counts@ =~= self.freqs_spec(width as nat));
        let frequencies = Frequencies::new(counts, canvas_height);
        let shift = self.canvas_shift_right();
        let ghost freqs = frequencies.results@;
        let ghost mf = frequencies.max_freq as nat;
        let ghost ch = canvas_height as nat;
        let mut out: Vec<char> = Vec::new();
        let mut r: usize = 0;
        while r < canvas_height
            invariant
                0 <= r <= canvas_height,
                freqs == frequencies.results@,
                freqs.len() == canvas_width,
                mf == frequencies.max_freq,
                frequencies.max_freq == max_of(frequencies.results@),
                ch == frequencies.canvas_height,
                ch == canvas_height,
                out@ == hist_text(freqs, mf, ch, shift as nat, r as nat),
            decreases canvas_height - r,
        {
            let height = canvas_height - r - 1;
            let ghost start = out@;
            out.push('\n');
            push_repeat(&mut out, ' ', shift);
            let ghost lead = out@;
            let mut i: usize = 0;
            while i < canvas_width
                invariant
                    0 <= i <= canvas_width,
                    freqs == frequencies.results@,
                    freqs.len() == canvas_width,
                    frequencies.max_freq == max_of(frequencies.results@),
                    mf == frequencies.max_freq,
                    ch == frequencies.canvas_height,
                    out@ == lead + row_text(freqs, mf, ch, height as nat).take(i as int),
                decreases canvas_width - i,
            {
                if frequencies.canvas_val(i) >= height {
                    out.push('x');
                } else {
                    out.push(' ');
                }
                assert(out@ =~= lead + row_text(freqs, mf, ch, height as nat).take(i as int + 1));
                i += 1;
            }
            assert(row_text(freqs, mf, ch, height as nat).take(canvas_width as int) =~= row_text(freqs, mf, ch, height as nat));
            assert(sat_sub(ch as int, r + 1) == height);
            assert(out@ =~= hist_text(freqs, mf, ch, shift as nat, (r + 1) as nat));
            r += 1;
        }
        assert(canvas_height == canvas_width * 30 / 100);
        out
    }

    /// The full distribution display for a canvas of `width` columns: histogram, axis,
    /// labels, mean and number of scores.
    #[verifier::rlimit(50)]
    pub fn display(&self, width: usize) -> (r: String)
        requires
            width < usize::MAX,
        ensures
            r@ == self.display_text(width as nat),
    {
        let mut out = self.build_distributions(width);
        out.push('\n');
        let axis = self.build_x_axis(width);
        push_all(&mut out, &axis);
        out.push('\n');
        let mean = mean_text();
        push_all(&mut out, &mean);
        let avg_text = score_to_text(self.avg);
        push_all(&mut out, &avg_text);
        out.push('\n');
        let label = total_text();
        push_all(&mut out, &label);
        let count = number_text(self.results.len() as u64);
        push_all(&mut out, &count);
        out.push('\n');
        assert(out@ =~= self.display_text(width as nat));
        chars_to_string(&out)
    }

    /// Indent of the histogram: the minimum's left shift.
    fn canvas_shift_right(&self) -> (r: usize)
        ensures
            r == self.min_left(),
    {
        calculate_shift(self.min, ShiftDirection::Left)
    }
}

/// The text `Mean: `.
fn mean_text() -> (r: Vec<char>)
    ensures
        r@ == mean_label(),
{
    let mut v: Vec<char> = Vec::new();
    v.push('M');
    v.push('e');
    v.push('a');
    v.push('n');
    v.push(':');
    v.push(' ');
    assert(v@ =~= mean_label());
    v
}

/// The text `Total similarities: `.
fn total_text() -> (r: Vec<char>)
    ensures
        r@ == total_label(),
{
    let mut v: Vec<char> = Vec::new();
    v.push('T');
    v.push('o');
    v.push('t');
    v.push('a');
    v.push('l');
    v.push(' ');
    v.push('s');
    v.push('i');
    v.push('m');
    v.push('i');
    v.push('l');
    v.push('a');
    v.push('r');
    v.push('i');
    v.push('t');
    v.push('i');
    v.push('e');
    v.push('s');
    v.push(':');
    v.push(' ');
    assert(v@ =~= total_label());
    v
}

/// Decimal digit of `d` (`d < 10`).
fn digit(d: u64) -> (r: char)
    requires
        d < 10,
    ensures
        r == digit_char(d as nat),
{
    if d == 0 {
        '0'
    } else if d == 1 {
        '1'
    } else if d == 2 {
        '2'
    } else if d == 3 {
        '3'
    } else if d == 4 {
        '4'
    } else if d == 5 {
        '5'
    } else if d == 6 {
        '6'
    } else if d == 7 {
        '7'
    } else if d == 8 {
        '8'
    } else {
        '9'
    }
}

/// Decimal text of `n`.
pub fn number_text(n: u64) -> (r: Vec<char>)
    ensures
        r@ == nat_text(n as nat),
    decreases n,
{
    if n < 10 {
        let mut v: Vec<char> = Vec::new();
        v.push(digit(n));
        assert(v@ =~= seq![digit_char(n as nat)]);
        v
    } else {
        let mut v = number_text(n / 10);
        v.push(digit(n % 10));
        v
    }
}

/// Shortest decimal text of a score: `0`, `0.2`, `0.215`, `1`.
pub fn score_to_text(v: u64) -> (r: Vec<char>)
    ensures
        r@ == score_text(v as nat),
{
    let f = v % SCALE;
    let mut out = number_text(v / SCALE);
    if f != 0 {
        out.push('.');
        let d1 = f / 100;
        let d2 = (f / 10) % 10;
        let d3 = f % 10;
        out.push(digit(d1));
        if d3 != 0 {
            out.push(digit(d2));
            out.push(digit(d3));
        } else if d2 != 0 {
            out.push(digit(d2));
        }
        assert(out@ =~= nat_text(v as nat / (SCALE as nat)) + seq!['.'] + fraction_text(
            f as nat,
        ));
    }
    out
}

/// Characters of the label of `val` on the given side of its anchor.
pub fn calculate_shift(val: u64, direction: ShiftDirection) -> (r: usize)
    ensures
        r == shift_spec(val as nat, direction is Left),
{
    let size = score_to_text(val).len();
    if size < 3 {
        return 0;
    }
    let division = size / 2;
    let remainder = size % 2;
    let left_shift = division + remainder - 1;
    match direction {
        ShiftDirection::Right => size - left_shift - 1,
        ShiftDirection::Left => left_shift,
    }
}

/// Appends `n` copies of `c`.
fn push_repeat(out: &mut Vec<char>, c: char, n: usize)
    ensures
        final(out)@ == old(out)@ + repeat(c, n as nat),
{
    let ghost start = out@;
    let mut k: usize = 0;
    while k < n
        invariant
            0 <= k <= n,
            out@ == start + repeat(c, k as nat),
        decreases n - k,
    {
        out.push(c);
        k += 1;
        assert(out@ =~= start + repeat(c, k as nat));
    }
}

/// Appends all of `v`.
fn push_all(out: &mut Vec<char>, v: &Vec<char>)
    ensures
        final(out)@ == old(out)@ + v@,
{
    let ghost start = out@;
    let mut k: usize = 0;
    while k < v.len()
        invariant
            0 <= k <= v@.len(),
            out@ == start + v@.take(k as int),
        decreases v@.len() - k,
    {
        out.push(v[k]);
        k += 1;
        assert(out@ =~= start + v@.take(k as int));
    }
    assert(v@.take(v@.len() as int) =~= v@);
}

/// Appends an axis segment of `w` columns.
fn push_segment(out: &mut Vec<char>, w: usize)
    ensures
        final(out)@ == old(out)@ + segment(w as nat),
{
    if w > 0 {
        let ghost start = out@;
        push_repeat(out, '-', w - 1);
        out.push('|');
        assert(out@ =~= start + segment(w as nat));
    } else {
        assert(out@ =~= old(out)@ + segment(w as nat));
    }
}

/// The bucket, among `cw` columns, of a score between `min` and `max`; all scores share
/// the first column when `max <= min`.
pub open spec fn bucket(v: nat, min: nat, max: nat, cw: nat) -> nat {
    if max <= min {
        0
    } else {
        let b = sat_sub(v as int, min as int) * cw / ((max - min) as nat);
        if b >= cw {
            sat_sub(cw as int, 1)
        } else {
            b
        }
    }
}

/// How many scores fall in bucket `b`.
pub open spec fn count_bucket(s: Seq<u64>, min: nat, max: nat, cw: nat, b: nat) -> nat
    decreases s.len(),
{
    if s.len() == 0 {
        0
    } else {
        count_bucket(s.drop_last(), min, max, cw, b) + if bucket(s.last() as nat, min, max, cw)
            == b {
            1nat
        } else {
            0nat
        }
    }
}

/// The largest entry of `s`, zero when empty.
pub open spec fn max_of(s: Seq<usize>) -> nat
    decreases s.len(),
{
    if s.len() == 0 {
        0
    } else if s.last() > max_of(s.drop_last()) {
        s.last() as nat
    } else {
        max_of(s.drop_last())
    }
}

/// Height of the bar of a column with `freq` scores, scaled so the fullest column is
/// `height` rows high.
pub open spec fn bar_height(freq: nat, max_freq: nat, height: nat) -> nat {
    if max_freq == 0 {
        0
    } else {
        freq * height / max_freq
    }
}

/// One histogram line at row `h`: a mark in each column whose bar reaches `h`.
pub open spec fn row_text(freqs: Seq<usize>, max_freq: nat, height: nat, h: nat) -> Seq<char> {
    Seq::new(
        freqs.len(),
        |i: int|
            if bar_height(freqs[i] as nat, max_freq, height) >= h {
                'x'
            } else {
                ' '
            },
    )
}

/// The top `k` histogram lines, each after a line break and `pad` spaces.
pub open spec fn hist_text(freqs: Seq<usize>, max_freq: nat, height: nat, pad: nat, k: nat) -> Seq<
    char,
>
    decreases k,
{
    if k == 0 {
        Seq::empty()
    } else {
        hist_text(freqs, max_freq, height, pad, (k - 1) as nat) + seq!['\n'] + repeat(' ', pad)
            + row_text(freqs, max_freq, height, sat_sub(height as int, k as int))
    }
}

/// Column counts of a histogram and the largest of them.
struct Frequencies {
    results: Vec<usize>,
    max_freq: usize,
    canvas_height: usize,
}

impl Frequencies {
    /// Counts with their maximum.
    fn new(results: Vec<usize>, canvas_height: usize) -> (r: Frequencies)
        ensures
            r.results == results,
            r.max_freq == max_of(results@),
            r.canvas_height == canvas_height,
    {
        let mut max: usize = 0;
        let mut i: usize = 0;
        while i < results.len()
            invariant
                0 <= i <= results@.len(),
                max == max_of(results@.take(i as int)),
            decreases results@.len() - i,
        {
            assert(results@.take(i as int + 1).drop_last() =~= results@.take(i as int));
            if results[i] > max {
                max = results[i];
            }
            i += 1;
        }
        assert(results@.take(results@.len() as int) =~= results@);
        Frequencies { results, max_freq: max, canvas_height }
    }

    /// Height of the bar of column `index`.
    fn canvas_val(&self, index: usize) -> (r: usize)
        requires
            index < self.results@.len(),
            self.max_freq == max_of(self.results@),
        ensures
            r == bar_height(self.results@[index as int] as nat, self.max_freq as nat, self.canvas_height as nat),
    {
        if self.max_freq == 0 {
            return 0;
        }
        let freq = self.results[index];
        proof {
            lemma_max_of_bound(self.results@, index as int);
        }
        let h = self.canvas_height;
        assert(freq <= u64::MAX && h <= u64::MAX);
        assert((freq as int) * (h as int) <= u128::MAX) by (nonlinear_arith)
            requires
                freq <= u64::MAX,
                h <= u64::MAX,
        ;
        let v: u128 = (freq as u128) * (self.canvas_height as u128) / (self.max_freq as u128);
        assert((freq as int) * (self.canvas_height as int) / (self.max_freq as int) <= self.canvas_height as int) by (nonlinear_arith)
            requires
                freq <= self.max_freq,
                self.max_freq > 0,
        ;
        v as usize
    }
}

proof fn lemma_max_of_bound(s: Seq<usize>, i: int)
    requires
        0 <= i < s.len(),
    ensures
        s[i] <= max_of(s),
    decreases s.len(),
{
    if i < s.len() - 1 {
        lemma_max_of_bound(s.drop_last(), i);
    }
}

} // verus!
