//! The two chart encoders.
//!
//! A series of percentages becomes one glyph per value (bar) or one glyph per
//! pair of values (braille), followed by the rounded average and a closing
//! delimiter. The series is drawn in the order it is given.

use vstd::prelude::*;
use crate::decimal::{append_decimal, decimal_text, lemma_natural_text_reads_back, natural_text};
use crate::fixed::{clamp_percent, clamped_percent, nearest_even, round_nearest_even, HUNDRED_PERCENT, UNIT};
use crate::storage::sqlite::SqliteStorage;
use crate::storage::ChartError;

verus! {

/// The nine bar glyphs, from empty to full.
pub open spec fn bar_palette() -> Seq<char> {
    seq![' ', '▁', '▂', '▃', '▄', '▅', '▆', '▇', '█']
}

/// The bar level of a percentage: 0 for nothing, else one more than the number
/// of whole eighths it reaches, at most 8.
pub open spec fn bar_level(v: int) -> int {
    let c = clamped_percent(v);
    if c == 0 {
        0
    } else if c * 8 / (HUNDRED_PERCENT as int) + 1 > 8 {
        8
    } else {
        c * 8 / (HUNDRED_PERCENT as int) + 1
    }
}

/// The glyph of a bar level; a level of 8 or more gives the full glyph.
pub open spec fn bar_glyph(level: int) -> char {
    if 0 <= level < 8 {
        bar_palette()[level]
    } else {
        '█'
    }
}

/// The glyphs of a bar chart: one per value, in the order given.
pub open spec fn bar_glyphs(values: Seq<i64>) -> Seq<char> {
    Seq::new(values.len(), |i: int| bar_glyph(bar_level(values[i] as int)))
}

/// The braille level of a percentage: 0 for nothing, then one level per
/// started quarter.
pub open spec fn braille_level(v: int) -> int {
    let c = clamped_percent(v);
    if c == 0 {
        0
    } else if c <= 25 * UNIT {
        1
    } else if c <= 50 * UNIT {
        2
    } else if c <= 75 * UNIT {
        3
    } else {
        4
    }
}

/// The 25 braille glyphs, five per left level.
pub open spec fn braille_palette() -> Seq<char> {
    seq![
        ' ', '⢀', '⢠', '⢰', '⢸',
        '⣀', '⣀', '⣠', '⣰', '⣸',
        '⣄', '⣄', '⣤', '⣴', '⣼',
        '⣆', '⣆', '⣦', '⣶', '⣾',
        '⣇', '⣇', '⣧', '⣷', '⣿',
    ]
}

/// The glyph for a pair of levels; a level above 4 gives the full glyph.
pub open spec fn braille_glyph(left: int, right: int) -> char {
    if 0 <= left < 5 && 0 <= right < 5 {
        braille_palette()[5 * left + right]
    } else {
        '⣿'
    }
}

/// The value at `i`, or 0 past the end of the series.
pub open spec fn value_or_zero(values: Seq<i64>, i: int) -> int {
    if 0 <= i < values.len() {
        values[i] as int
    } else {
        0
    }
}

/// The glyphs of a braille chart: one per pair of values, a last single value
/// paired with 0.
pub open spec fn braille_glyphs(values: Seq<i64>) -> Seq<char> {
    Seq::new(
        ((values.len() + 1) / 2) as nat,
        |i: int|
            braille_glyph(
                braille_level(value_or_zero(values, 2 * i)),
                braille_level(value_or_zero(values, 2 * i + 1)),
            ),
    )
}

/// The sum of a series.
pub open spec fn series_total(values: Seq<i64>) -> int
    decreases values.len(),
{
    if values.len() == 0 {
        0
    } else {
        series_total(values.drop_last()) + values.last()
    }
}

/// The average of a series in whole percent, rounded to the nearest integer,
/// halves to the even one. The values enter as given, not clamped.
pub open spec fn average_percent(values: Seq<i64>) -> int
    recommends
        values.len() > 0,
{
    nearest_even(series_total(values), values.len() * UNIT)
}

/// `text` right-aligned in a field of two characters.
pub open spec fn right_aligned(text: Seq<char>) -> Seq<char> {
    if text.len() < 2 {
        Seq::new((2 - text.len()) as nat, |i: int| ' ') + text
    } else {
        text
    }
}

/// What follows the glyphs: two dots, the average in whole percent, a percent
/// sign and the closing delimiter.
pub open spec fn annotation(values: Seq<i64>) -> Seq<char> {
    seq!['.', '.'] + right_aligned(decimal_text(average_percent(values))) + seq!['%', '|']
}

/// A whole bar chart.
pub open spec fn bar_chart_text(values: Seq<i64>) -> Seq<char> {
    bar_glyphs(values) + annotation(values)
}

/// A whole braille chart.
pub open spec fn braille_chart_text(values: Seq<i64>) -> Seq<char> {
    braille_glyphs(values) + annotation(values)
}

/// Equal series have equal charts, in either encoding.
pub proof fn lemma_encoding_is_deterministic(first: Seq<i64>, second: Seq<i64>)
    requires
        first =~= second,
    ensures
        bar_chart_text(first) == bar_chart_text(second),
        braille_chart_text(first) == braille_chart_text(second),
{
}

/// The glyph of a bar depends on the value at its place and on nothing else:
/// two series that agree at a place have the same glyph there.
pub proof fn lemma_bar_glyph_follows_value(first: Seq<i64>, second: Seq<i64>, i: int)
    requires
        0 <= i < first.len(),
        i < second.len(),
        first[i] == second[i],
    ensures
        bar_glyphs(first)[i] == bar_glyphs(second)[i],
        bar_chart_text(first)[i] == bar_chart_text(second)[i],
{
}

/// A bar chart has one glyph per value and a braille chart one per pair of
/// values, the last pair possibly half empty; the annotation follows, which
/// has at least six characters.
pub proof fn lemma_chart_lengths(values: Seq<i64>)
    ensures
        bar_glyphs(values).len() == values.len(),
        braille_glyphs(values).len() == (values.len() + 1) / 2,
        bar_chart_text(values).len() == values.len() + annotation(values).len(),
        braille_chart_text(values).len() == (values.len() + 1) / 2 + annotation(values).len(),
        annotation(values).len() >= 6,
        annotation(values).len() == 4 + right_aligned(decimal_text(average_percent(values))).len(),
{
}

/// The sum of percentages lies between 0 and a hundred percent for each.
pub proof fn lemma_total_of_percentages(values: Seq<i64>)
    requires
        forall|i: int| 0 <= i < values.len() ==> 0 <= #[trigger] values[i] <= HUNDRED_PERCENT,
    ensures
        0 <= series_total(values) <= values.len() * HUNDRED_PERCENT,
    decreases values.len(),
{
    if values.len() > 0 {
        assert forall|i: int| 0 <= i < values.drop_last().len() implies 0
            <= #[trigger] values.drop_last()[i] <= HUNDRED_PERCENT by {
            assert(values.drop_last()[i] == values[i]);
        }
        lemma_total_of_percentages(values.drop_last());
        assert(0 <= values[values.len() - 1] <= HUNDRED_PERCENT);
    }
}

/// For a series of percentages the average lies between 0 and 100, and the
/// annotation has six characters, or seven when the average is 100.
pub proof fn lemma_annotation_of_percentages(values: Seq<i64>)
    requires
        values.len() > 0,
        forall|i: int| 0 <= i < values.len() ==> 0 <= #[trigger] values[i] <= HUNDRED_PERCENT,
    ensures
        0 <= average_percent(values) <= 100,
        annotation(values).len() == (if average_percent(values) == 100 {
            7nat
        } else {
            6nat
        }),
{
    lemma_total_of_percentages(values);
    let total = series_total(values);
    let den = values.len() * UNIT;
    assert(0 <= total / den <= 100 && 0 <= total % den < den && (total / den == 100 ==> total
        % den == 0) && total == den * (total / den) + total % den) by (nonlinear_arith)
        requires
            0 <= total <= values.len() * HUNDRED_PERCENT,
            den == values.len() * UNIT,
            values.len() > 0,
            UNIT == 1_000_000,
            HUNDRED_PERCENT == 100_000_000,
    ;
    let average = average_percent(values);
    assert(0 <= average <= 100);
    let text = decimal_text(average);
    if average < 10 {
        assert(text.len() == 1);
    } else if average < 100 {
        assert(natural_text((average / 10) as nat).len() == 1);
        assert(text.len() == 2);
    } else {
        assert(natural_text(10).len() == 2) by {
            assert(natural_text(1).len() == 1);
        }
        assert(text.len() == 3);
    }
}

/// The level of one bar.
pub fn percentage_to_bar_level(percentage: i64) -> (level: u8)
    ensures
        level == bar_level(percentage as int),
        level <= 8,
{
    let c = clamp_percent(percentage);
    if c == 0 {
        0
    } else {
        let eighths: i64 = c * 8 / HUNDRED_PERCENT;
        if eighths + 1 > 8 {
            8
        } else {
            (eighths + 1) as u8
        }
    }
}

/// The glyph of one bar.
pub fn get_bar_char(level: u8) -> (glyph: char)
    ensures
        glyph == bar_glyph(level as int),
{
    if level == 0 {
        ' '
    } else if level == 1 {
        '▁'
    } else if level == 2 {
        '▂'
    } else if level == 3 {
        '▃'
    } else if level == 4 {
        '▄'
    } else if level == 5 {
        '▅'
    } else if level == 6 {
        '▆'
    } else if level == 7 {
        '▇'
    } else {
        '█'
    }
}

/// Appends the annotation of `values` to `out`.
pub fn append_annotation(out: &mut String, values: &[i64])
    requires
        values@.len() > 0,
    ensures
        final(out)@ == old(out)@ + annotation(values@),
{
    let ghost start = out@;
    let n = values.len();
    let mut total: i128 = 0;
    let mut i: usize = 0;
    while i < n
        invariant
            i <= n,
            n == values@.len(),
            total == series_total(values@.take(i as int)),
            -(i * 0x8000_0000_0000_0000) <= total <= i * 0x8000_0000_0000_0000,
        decreases n - i,
    {
        assert(values@.take(i + 1).drop_last() =~= values@.take(i as int));
        total = total + values[i] as i128;
        i = i + 1;
    }
    assert(values@.take(n as int) =~= values@);
    let den: i128 = (n as i128) * (UNIT as i128);
    let average = round_nearest_even(total, den);
    out.push('.');
    out.push('.');
    if 0 <= average && average < 10 {
        out.push(' ');
    }
    let ghost before = out@;
    append_decimal(out, average);
    out.push('%');
    out.push('|');
    proof {
        let text = decimal_text(average as int);
        if 0 <= average < 10 {
            assert(text.len() == 1);
            assert(right_aligned(text) =~= seq![' '] + text);
        } else if average >= 10 {
            lemma_natural_text_reads_back((average / 10) as nat);
            assert(text.len() >= 2);
        } else {
            lemma_natural_text_reads_back((-average) as nat);
            assert(text.len() >= 2);
        }
        assert(out@ =~= start + annotation(values@));
    }
}

impl SqliteStorage {
    /// Encodes a series as a bar chart.
    ///
    /// Each value gives one glyph, in the order given; the rounded average
    /// and the closing delimiter follow. An empty series has no chart.
    pub fn generate_bar_chart(&self, values: &[i64], _metric: &str) -> (chart: Result<
        String,
        ChartError,
    >)
        ensures
            values@.len() == 0 ==> chart == Err::<String, ChartError>(ChartError::NoData),
            values@.len() > 0 ==> chart is Ok && chart->Ok_0@ == bar_chart_text(values@),
    {
        let n = values.len();
        if n == 0 {
            return Err(ChartError::NoData);
        }
        let mut chart = String::new();
        let mut i: usize = 0;
        while i < n
            invariant
                i <= n,
                n == values@.len(),
                chart@ =~= bar_glyphs(values@).take(i as int),
            decreases n - i,
        {
            chart.push(get_bar_char(percentage_to_bar_level(values[i])));
            i = i + 1;
        }
        assert(bar_glyphs(values@).take(n as int) =~= bar_glyphs(values@));
        append_annotation(&mut chart, values);
        Ok(chart)
    }

    /// Encodes a series as a braille chart.
    ///
    /// Each pair of values gives one glyph, a last single value being paired
    /// with 0; the rounded average and the closing delimiter follow. An empty
    /// series has no chart.
    pub fn generate_braille_chart(&self, values: &[i64], _metric: &str) -> (chart: Result<
        String,
        ChartError,
    >)
        ensures
            values@.len() == 0 ==> chart == Err::<String, ChartError>(ChartError::NoData),
            values@.len() > 0 ==> chart is Ok && chart->Ok_0@ == braille_chart_text(values@),
    {
        let n = values.len();
        if n == 0 {
            return Err(ChartError::NoData);
        }
        let cells: usize = n / 2 + n % 2;
        let mut chart = String::new();
        let mut i: usize = 0;
        while i < cells
            invariant
                i <= cells,
                n == values@.len(),
                cells == (n + 1) / 2,
                chart@ =~= braille_glyphs(values@).take(i as int),
            decreases cells - i,
        {
            let left = values[2 * i];
            let right: i64 = if 2 * i + 1 < n {
                values[2 * i + 1]
            } else {
                0
            };
            let left_level = self.percentage_to_braille_level(left);
            let right_level = self.percentage_to_braille_level(right);
            chart.push(self.get_braille_char(left_level, right_level));
            i = i + 1;
        }
        assert(braille_glyphs(values@).take(cells as int) =~= braille_glyphs(values@));
        append_annotation(&mut chart, values);
        Ok(chart)
    }

    /// The braille level of one value.
    pub fn percentage_to_braille_level(&self, percentage: i64) -> (level: u8)
        ensures
            level == braille_level(percentage as int),
            level <= 4,
    {
        let c = clamp_percent(percentage);
        if c == 0 {
            0
        } else if c <= 25 * UNIT {
            1
        } else if c <= 50 * UNIT {
            2
        } else if c <= 75 * UNIT {
            3
        } else {
            4
        }
    }

    /// The braille glyph for a pair of levels.
    pub fn get_braille_char(&self, left: u8, right: u8) -> (glyph: char)
        ensures
            glyph == braille_glyph(left as int, right as int),
    {
        match (left, right) {
            (0, 0) => ' ',
            (0, 1) => '⢀',
            (0, 2) => '⢠',
            (0, 3) => '⢰',
            (0, 4) => '⢸',
            (1, 0) => '⣀',
            (1, 1) => '⣀',
            (1, 2) => '⣠',
            (1, 3) => '⣰',
            (1, 4) => '⣸',
            (2, 0) => '⣄',
            (2, 1) => '⣄',
            (2, 2) => '⣤',
            (2, 3) => '⣴',
            (2, 4) => '⣼',
            (3, 0) => '⣆',
            (3, 1) => '⣆',
            (3, 2) => '⣦',
            (3, 3) => '⣶',
            (3, 4) => '⣾',
            (4, 0) => '⣇',
            (4, 1) => '⣇',
            (4, 2) => '⣧',
            (4, 3) => '⣷',
            (4, 4) => '⣿',
            _ => '⣿',
        }
    }
}

} // verus!
