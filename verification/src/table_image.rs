//! The layout logic of table images: styled runs of cell text, padded rows,
//! word and space tokens, row heights and column widths. Measuring glyphs and
//! drawing pixels happen elsewhere.

use vstd::prelude::*;
use crate::prosemirror::{emphasis_at, emphasis_at_of, lemma_link_at_span, lemma_star_count, star_count, stars};
use crate::text::{append_chars, chars_of, is_space, is_whitespace, slice_of, string_of, views};

verus! {

/// Horizontal padding inside a cell, in pixels.
pub const CELL_PADDING_X: u32 = 14;

/// Vertical padding inside a cell, in pixels.
pub const CELL_PADDING_Y: u32 = 10;

/// The width a table image aims for, in pixels.
pub const TARGET_WIDTH: u32 = 1200;

/// A table to render: its header cells and body rows.
pub struct TableImage<'a> {
    header: &'a [String],
    rows: &'a [Vec<String>],
}

impl<'a> TableImage<'a> {
    pub fn new(header: &'a [String], rows: &'a [Vec<String>]) -> (r: Self)
        ensures
            r.header() == header,
            r.rows() == rows,
    {
        TableImage { header, rows }
    }

    pub closed spec fn header(&self) -> &'a [String] {
        self.header
    }

    pub closed spec fn rows(&self) -> &'a [Vec<String>] {
        self.rows
    }

    /// The header cells.
    pub fn header_cells(&self) -> (r: &'a [String])
        ensures
            r == self.header(),
    {
        self.header
    }

    /// The body rows.
    pub fn body_rows(&self) -> (r: &'a [Vec<String>])
        ensures
            r == self.rows(),
    {
        self.rows
    }
}

// ── Inline runs ─────────────────────────────────────────────────────

/// A styled piece of cell text.
pub struct RunValue {
    pub text: Seq<char>,
    pub bold: bool,
    pub italic: bool,
}

/// A piece of cell text with its style.
#[derive(Debug, Clone)]
pub struct InlineRun {
    pub text: String,
    pub bold: bool,
    pub italic: bool,
}

impl View for InlineRun {
    type V = RunValue;

    open spec fn view(&self) -> RunValue {
        RunValue { text: self.text@, bold: self.bold, italic: self.italic }
    }
}

pub open spec fn runs_view(v: Seq<InlineRun>) -> Seq<RunValue> {
    v.map_values(|r: InlineRun| r@)
}

/// Pending plain text as a run, if any; header text is bold.
pub open spec fn flush_run(buf: Seq<char>, header: bool) -> Seq<RunValue> {
    if buf.len() == 0 {
        seq![]
    } else {
        seq![RunValue { text: buf, bold: header, italic: false }]
    }
}

/// The runs of `s` from `pos`, with `buf` as pending plain text. A run of
/// `n` asterisks up to the next run of `n` asterisks makes a styled run (two
/// or more bold, one or three italic); a run of asterisks without a closing
/// one stays plain text.
pub open spec fn run_scan(s: Seq<char>, pos: int, buf: Seq<char>, header: bool) -> Seq<RunValue>
    decreases s.len() - pos,
{
    if pos < 0 || pos >= s.len() {
        flush_run(buf, header)
    } else if s[pos] == '*' {
        proof {
            lemma_link_at_span(s, pos);
            lemma_star_count(s, pos);
        }
        match emphasis_at(s, pos) {
            Some((inner, k, n)) => flush_run(buf, header) + seq![
                RunValue { text: inner, bold: header || k >= 2, italic: k == 1 || k == 3 },
            ] + run_scan(s, pos + n, seq![], header),
            None => run_scan(
                s,
                pos + star_count(s, pos),
                buf + stars(star_count(s, pos)),
                header,
            ),
        }
    } else {
        run_scan(s, pos + 1, buf.push(s[pos]), header)
    }
}

/// The runs of a cell's text; an empty result becomes one empty run.
pub open spec fn inline_runs(s: Seq<char>, header: bool) -> Seq<RunValue> {
    let r = run_scan(s, 0, seq![], header);
    if r.len() == 0 {
        seq![RunValue { text: seq![], bold: header, italic: false }]
    } else {
        r
    }
}

fn flush_run_of(runs: &mut Vec<InlineRun>, buf: &mut Vec<char>, header: bool)
    ensures
        runs_view(final(runs)@) == runs_view(old(runs)@) + flush_run(old(buf)@, header),
        final(buf)@.len() == 0,
{
    let ghost before = runs@;
    if buf.len() > 0 {
        runs.push(InlineRun { text: string_of(buf), bold: header, italic: false });
        *buf = Vec::new();
    }
    assert(runs_view(runs@) =~= runs_view(before) + flush_run(old(buf)@, header));
}

impl InlineRun {
    /// Splits a cell's text into styled runs at `*...*`, `**...**` and
    /// `***...***`; header cells are bold throughout.
    pub fn parse(text: &str, header: bool) -> (r: Vec<InlineRun>)
        ensures
            runs_view(r@) == inline_runs(text@, header),
    {
        let s = chars_of(text);
        let mut runs: Vec<InlineRun> = Vec::new();
        let mut buf: Vec<char> = Vec::new();
        let mut pos: usize = 0;
        assert(runs_view(runs@) =~= seq![]);
        while pos < s.len()
            invariant
                pos <= s@.len(),
                runs_view(runs@) + run_scan(s@, pos as int, buf@, header) == run_scan(
                    s@,
                    0,
                    seq![],
                    header,
                ),
            decreases s@.len() - pos,
        {
            let ghost runs0 = runs_view(runs@);
            let ghost buf0 = buf@;
            if s[pos] == '*' {
                proof {
                    lemma_link_at_span(s@, pos as int);
                    lemma_star_count(s@, pos as int);
                }
                match emphasis_at_of(&s, pos) {
                    Some((inner, k, n)) => {
                        flush_run_of(&mut runs, &mut buf, header);
                        assert(buf@ =~= seq![]);
                        let ghost runs1 = runs@;
                        runs.push(
                            InlineRun {
                                text: string_of(&inner),
                                bold: header || k >= 2,
                                italic: k == 1 || k == 3,
                            },
                        );
                        assert(runs_view(runs@) =~= runs_view(runs1).push(
                            RunValue {
                                text: inner@,
                                bold: header || k >= 2,
                                italic: k == 1 || k == 3,
                            },
                        ));
                        assert(runs_view(runs@) + run_scan(s@, pos + n, buf@, header) =~= runs0
                            + run_scan(s@, pos as int, buf0, header));
                        pos = pos + n;
                    },
                    None => {
                        let mut i = pos;
                        while i < s.len() && s[i] == '*'
                            invariant
                                pos <= i <= s@.len(),
                                star_count(s@, pos as int) == (i - pos) + star_count(
                                    s@,
                                    i as int,
                                ),
                                buf@ == buf0 + stars((i - pos) as nat),
                            decreases s@.len() - i,
                        {
                            buf.push('*');
                            i = i + 1;
                            assert(buf@ =~= buf0 + stars((i - pos) as nat));
                        }
                        pos = i;
                    },
                }
            } else {
                buf.push(s[pos]);
                pos = pos + 1;
            }
        }
        flush_run_of(&mut runs, &mut buf, header);
        if runs.len() == 0 {
            runs.push(InlineRun { text: String::new(), bold: header, italic: false });
            assert(runs_view(runs@) =~= seq![RunValue { text: seq![], bold: header, italic: false }]);
        }
        runs
    }
}

// ── Rows ────────────────────────────────────────────────────────────

/// A row's cells cut or padded with empty cells to `columns` cells.
pub open spec fn padded_row(row: Seq<Seq<char>>, columns: nat) -> Seq<Seq<char>> {
    Seq::new(columns, |i: int| if i < row.len() { row[i] } else { Seq::empty() })
}

/// A row cut or padded with empty cells to `columns` cells.
pub fn pad_row(row: &[String], columns: usize) -> (r: Vec<String>)
    ensures
        r@.len() == columns,
        forall|i: int| 0 <= i < columns ==> #[trigger] r@[i]@ == padded_row(
            row@.map_values(|c: String| c@),
            columns as nat,
        )[i],
{
    let mut padded: Vec<String> = Vec::new();
    let mut i: usize = 0;
    while i < columns
        invariant
            i <= columns,
            padded@.len() == i,
            forall|k: int| 0 <= k < i ==> #[trigger] padded@[k]@ == padded_row(
                row@.map_values(|c: String| c@),
                columns as nat,
            )[k],
        decreases columns - i,
    {
        if i < row.len() {
            padded.push(row[i].clone());
        } else {
            padded.push(String::new());
        }
        i = i + 1;
    }
    padded
}

/// The tallest cell of a row, in lines, counting an empty cell as one line;
/// a row without cells counts as one line.
pub open spec fn max_lines(counts: Seq<nat>) -> nat
    decreases counts.len(),
{
    if counts.len() == 0 {
        1
    } else {
        let rest = max_lines(counts.drop_last());
        let last = if counts.last() == 0 {
            1
        } else {
            counts.last()
        };
        if last > rest {
            last
        } else {
            rest
        }
    }
}

pub open spec fn line_counts<T>(cells: Seq<Vec<T>>) -> Seq<nat> {
    cells.map_values(|c: Vec<T>| c@.len())
}

/// The height of a row: its tallest cell's lines plus the vertical padding.
pub open spec fn row_height_of(counts: Seq<nat>, line_height: u32) -> int {
    line_height * max_lines(counts) + 2 * CELL_PADDING_Y
}

/// The height in pixels of a row whose cells have the given lines. Heights
/// beyond `u32` are outside the domain.
pub fn row_height<T>(lines_per_cell: &[Vec<T>], line_height: u32) -> (r: u32)
    requires
        row_height_of(line_counts(lines_per_cell@), line_height) <= u32::MAX,
    ensures
        r == row_height_of(line_counts(lines_per_cell@), line_height),
{
    let ghost counts = line_counts(lines_per_cell@);
    let mut most: usize = 1;
    let mut i: usize = 0;
    assert(counts.take(0) =~= Seq::<nat>::empty());
    while i < lines_per_cell.len()
        invariant
            i <= lines_per_cell@.len(),
            counts == line_counts(lines_per_cell@),
            most == max_lines(counts.take(i as int)),
        decreases lines_per_cell@.len() - i,
    {
        let n = lines_per_cell[i].len();
        let n = if n == 0 {
            1
        } else {
            n
        };
        if n > most {
            most = n;
        }
        assert(counts.take(i + 1).drop_last() =~= counts.take(i as int));
        i = i + 1;
    }
    assert(counts.take(i as int) =~= counts);
    proof {
        assert(line_height * most <= u32::MAX) by (nonlinear_arith)
            requires
                line_height * max_lines(counts) + 2 * CELL_PADDING_Y <= u32::MAX,
                most == max_lines(counts),
        ;
        if line_height > 0 {
            assert(most <= line_height * most) by (nonlinear_arith)
                requires
                    line_height > 0,
            ;
        }
    }
    let lines = #[verifier::truncate] (most as u32);
    assert(line_height > 0 ==> lines == most);
    assert(line_height * lines == line_height * most) by (nonlinear_arith)
        requires
            line_height > 0 ==> lines == most,
    ;
    line_height * lines + 2 * CELL_PADDING_Y
}

// ── Tokens ──────────────────────────────────────────────────────────

/// The end of the run of characters from `i` on that are whitespace exactly
/// when `s[start]` is.
pub open spec fn class_run_end(s: Seq<char>, start: int, i: int) -> int
    decreases s.len() - i,
{
    if 0 <= start && 0 <= i < s.len() && is_space(s[i]) == is_space(s[start]) {
        class_run_end(s, start, i + 1)
    } else {
        i
    }
}

/// The maximal runs of whitespace and of other characters in `s` from `i`.
pub open spec fn tokens_from(s: Seq<char>, i: int) -> Seq<Seq<char>>
    decreases s.len() - i,
{
    if i < 0 || i >= s.len() {
        seq![]
    } else {
        let j = class_run_end(s, i, i + 1);
        proof {
            lemma_class_run_end(s, i, i + 1);
        }
        seq![s.subrange(i, j)] + tokens_from(s, j)
    }
}

/// A run of one whitespace class ends within the text, at a character of
/// the other class.
pub proof fn lemma_class_run_end(s: Seq<char>, start: int, i: int)
    requires
        0 <= start < i <= s.len(),
    ensures
        i <= class_run_end(s, start, i) <= s.len(),
        forall|k: int|
            i <= k < class_run_end(s, start, i) ==> is_space(#[trigger] s[k]) == is_space(s[start]),
        class_run_end(s, start, i) < s.len() ==> is_space(s[class_run_end(s, start, i)])
            != is_space(s[start]),
    decreases s.len() - i,
{
    if i < s.len() && is_space(s[i]) == is_space(s[start]) {
        lemma_class_run_end(s, start, i + 1);
    }
}

/// Splits text into alternating runs of whitespace and non-whitespace.
pub fn tokenize_with_spaces(text: &str) -> (r: Vec<String>)
    ensures
        r@.map_values(|t: String| t@) == tokens_from(text@, 0),
{
    let s = chars_of(text);
    let mut tokens: Vec<String> = Vec::new();
    let mut i: usize = 0;
    assert(tokens@.map_values(|t: String| t@) =~= seq![]);
    while i < s.len()
        invariant
            i <= s@.len(),
            tokens@.map_values(|t: String| t@) + tokens_from(s@, i as int) == tokens_from(s@, 0),
        decreases s@.len() - i,
    {
        let space = is_whitespace(s[i]);
        let mut j = i + 1;
        while j < s.len() && is_whitespace(s[j]) == space
            invariant
                i < j <= s@.len(),
                space == is_space(s@[i as int]),
                class_run_end(s@, i as int, i + 1) == class_run_end(s@, i as int, j as int),
            decreases s@.len() - j,
        {
            j = j + 1;
        }
        let ghost before = tokens@;
        tokens.push(string_of(&slice_of(&s, i, j)));
        assert(tokens@.map_values(|t: String| t@) =~= before.map_values(|t: String| t@).push(
            s@.subrange(i as int, j as int),
        ));
        assert(tokens@.map_values(|t: String| t@) + tokens_from(s@, j as int) =~= before.map_values(
            |t: String| t@,
        ) + tokens_from(s@, i as int));
        i = j;
    }
    assert(tokens@.map_values(|t: String| t@) =~= tokens_from(s@, 0));
    tokens
}

/// The tokens of a text put back together give the text, and each token is
/// a non-empty run of whitespace or of other characters, unlike the next.
pub proof fn law_tokens_reassemble(s: Seq<char>, i: int)
    requires
        0 <= i <= s.len(),
    ensures
        tokens_from(s, i).flatten() == s.skip(i),
        forall|k: int| 0 <= k < tokens_from(s, i).len() ==> #[trigger] tokens_from(s, i)[k].len() > 0,
        forall|k: int, m: int|
            0 <= k < tokens_from(s, i).len() && 0 <= m < tokens_from(s, i)[k].len() ==> is_space(
                #[trigger] tokens_from(s, i)[k][m],
            ) == is_space(tokens_from(s, i)[k][0]),
        forall|k: int|
            0 <= k < tokens_from(s, i).len() - 1 ==> is_space(#[trigger] tokens_from(s, i)[k][0])
                != is_space(tokens_from(s, i)[k + 1][0]),
    decreases s.len() - i,
{
    if i < s.len() {
        let j = class_run_end(s, i, i + 1);
        lemma_class_run_end(s, i, i + 1);
        law_tokens_reassemble(s, j);
        let t = tokens_from(s, i);
        let rest = tokens_from(s, j);
        assert(t == seq![s.subrange(i, j)] + rest);
        assert(t.drop_first() =~= rest);
        assert(s.skip(i) =~= s.subrange(i, j) + s.skip(j));
        assert(t.flatten() == t[0] + t.drop_first().flatten());
        if rest.len() > 0 {
            lemma_class_run_end(s, j, j + 1);
            assert(rest[0][0] == s[j]);
        }
        assert forall|k: int, m: int|
            0 <= k < t.len() && 0 <= m < t[k].len() implies is_space(#[trigger] t[k][m])
            == is_space(t[k][0]) by {
            if k > 0 {
                assert(t[k] == rest[k - 1]);
            }
        }
        assert forall|k: int| 0 <= k < t.len() - 1 implies is_space(#[trigger] t[k][0])
            != is_space(t[k + 1][0]) by {
            if k > 0 {
                assert(t[k] == rest[k - 1]);
                assert(t[k + 1] == rest[k]);
            } else {
                assert(t[1] == rest[0]);
            }
        }
        assert forall|k: int| 0 <= k < t.len() implies #[trigger] t[k].len() > 0 by {
            if k > 0 {
                assert(t[k] == rest[k - 1]);
            }
        }
    } else {
        assert(s.skip(i) =~= Seq::<char>::empty());
    }
}

// ── Column widths ───────────────────────────────────────────────────

/// The sum of a sequence.
pub open spec fn sum_of(v: Seq<int>) -> int
    decreases v.len(),
{
    if v.len() == 0 {
        0
    } else {
        sum_of(v.drop_last()) + v.last()
    }
}

pub open spec fn widened(v: Seq<u32>) -> Seq<int> {
    v.map_values(|x: u32| x as int)
}

/// The width left for the columns of a `columns`-column table once its
/// `columns + 1` one-pixel rules are drawn (the column count taken as a
/// `u32`, as the layout computes it).
pub open spec fn available_width(columns: nat) -> int {
    let c = #[verifier::truncate] (columns as u32);
    if c + 1 <= TARGET_WIDTH {
        TARGET_WIDTH - (c + 1)
    } else {
        0
    }
}

/// Each column's minimum width plus its share of `slack`, in proportion to
/// how much wider it would like to be, rounded down.
pub open spec fn proportional(mins: Seq<int>, nats: Seq<int>, slack: int, extra: int) -> Seq<int> {
    Seq::new(mins.len(), |i: int| mins[i] + (nats[i] - mins[i]) * slack / extra)
}

/// Column widths: the natural widths when they fit the available width, the
/// minimum widths when even those do not, and otherwise the minimum widths
/// with the slack shared in proportion to what each column wants beyond its
/// minimum, the rounding remainder going to the last column.
pub open spec fn column_widths(mins: Seq<u32>, nats: Seq<u32>) -> Seq<int> {
    let avail = available_width(mins.len());
    let m = widened(mins);
    let n = widened(nats);
    if sum_of(n) <= avail {
        n
    } else if sum_of(m) >= avail {
        m
    } else {
        let base = proportional(m, n, avail - sum_of(m), sum_of(n) - sum_of(m));
        let drift = avail - sum_of(base);
        if drift > 0 && base.len() > 0 {
            base.update(base.len() - 1, base.last() + drift)
        } else {
            base
        }
    }
}

proof fn lemma_sum_take_step(v: Seq<int>, i: int)
    requires
        0 <= i < v.len(),
    ensures
        sum_of(v.take(i + 1)) == sum_of(v.take(i)) + v[i],
{
    assert(v.take(i + 1).drop_last() =~= v.take(i));
}

proof fn lemma_sum_nonneg(v: Seq<int>)
    requires
        forall|k: int| 0 <= k < v.len() ==> v[k] >= 0,
    ensures
        0 <= sum_of(v),
    decreases v.len(),
{
    if v.len() > 0 {
        lemma_sum_nonneg(v.drop_last());
    }
}

proof fn lemma_sum_prefix_le(v: Seq<int>, i: int)
    requires
        0 <= i <= v.len(),
        forall|k: int| 0 <= k < v.len() ==> v[k] >= 0,
    ensures
        sum_of(v.take(i)) <= sum_of(v),
    decreases v.len() - i,
{
    if i < v.len() {
        lemma_sum_prefix_le(v, i + 1);
        lemma_sum_take_step(v, i);
    } else {
        assert(v.take(i) =~= v);
    }
}

proof fn lemma_sum_nonneg_prefix(v: Seq<int>, i: int)
    requires
        0 <= i <= v.len(),
        forall|k: int| 0 <= k < v.len() ==> v[k] >= 0,
    ensures
        0 <= sum_of(v.take(i)) <= sum_of(v),
{
    lemma_sum_prefix_le(v, i);
    lemma_sum_nonneg(v.take(i));
}

proof fn lemma_floor_add(a: int, b: int, e: int)
    requires
        0 <= a,
        0 <= b,
        0 < e,
    ensures
        a / e + b / e <= (a + b) / e,
{
    vstd::arithmetic::div_mod::lemma_fundamental_div_mod(a, e);
    vstd::arithmetic::div_mod::lemma_fundamental_div_mod(b, e);
    let q = a / e + b / e;
    assert(e * q <= a + b) by (nonlinear_arith)
        requires
            a == e * (a / e) + a % e,
            b == e * (b / e) + b % e,
            0 <= a % e,
            0 <= b % e,
            q == a / e + b / e,
    ;
    vstd::arithmetic::div_mod::lemma_div_is_ordered(e * q, a + b, e);
    vstd::arithmetic::div_mod::lemma_div_multiples_vanish(q, e);
}

/// The shares, rounded down, add up to no more than the unrounded total.
proof fn lemma_share_sum(m: Seq<int>, n: Seq<int>, slack: int, extra: int, k: int)
    requires
        m.len() == n.len(),
        0 <= k <= m.len(),
        0 <= slack,
        0 < extra,
        forall|i: int| 0 <= i < m.len() ==> m[i] <= n[i],
    ensures
        sum_of(proportional(m, n, slack, extra).take(k)) <= sum_of(m.take(k)) + (sum_of(n.take(k))
            - sum_of(m.take(k))) * slack / extra,
        sum_of(n.take(k)) - sum_of(m.take(k)) >= 0,
    decreases k,
{
    let p = proportional(m, n, slack, extra);
    if k == 0 {
        assert(p.take(0) =~= Seq::<int>::empty());
        assert(m.take(0) =~= Seq::<int>::empty());
        assert(n.take(0) =~= Seq::<int>::empty());
    } else {
        lemma_share_sum(m, n, slack, extra, k - 1);
        lemma_sum_take_step(p, k - 1);
        lemma_sum_take_step(m, k - 1);
        lemma_sum_take_step(n, k - 1);
        let d0 = sum_of(n.take(k - 1)) - sum_of(m.take(k - 1));
        let w = n[k - 1] - m[k - 1];
        assert(d0 * slack >= 0) by (nonlinear_arith)
            requires
                d0 >= 0,
                slack >= 0,
        ;
        assert(w * slack >= 0) by (nonlinear_arith)
            requires
                w >= 0,
                slack >= 0,
        ;
        lemma_floor_add(d0 * slack, w * slack, extra);
        assert(d0 * slack + w * slack == (d0 + w) * slack) by (nonlinear_arith);
    }
}

/// When the natural widths do not fit but the minimum widths leave room,
/// the columns fill the available width exactly, none narrower than its
/// minimum.
pub proof fn law_column_widths_fill(mins: Seq<u32>, nats: Seq<u32>)
    requires
        mins.len() == nats.len(),
        forall|i: int| 0 <= i < mins.len() ==> mins[i] <= nats[i],
        sum_of(widened(nats)) > available_width(mins.len()),
        sum_of(widened(mins)) < available_width(mins.len()),
    ensures
        sum_of(column_widths(mins, nats)) == available_width(mins.len()),
        column_widths(mins, nats).len() == mins.len(),
        forall|i: int|
            0 <= i < mins.len() ==> #[trigger] column_widths(mins, nats)[i] >= mins[i] as int,
{
    let avail = available_width(mins.len());
    let m = widened(mins);
    let n = widened(nats);
    let slack = avail - sum_of(m);
    let extra = sum_of(n) - sum_of(m);
    let base = proportional(m, n, slack, extra);
    lemma_share_sum(m, n, slack, extra, m.len() as int);
    assert(m.take(m.len() as int) =~= m);
    assert(n.take(n.len() as int) =~= n);
    assert(base.take(base.len() as int) =~= base);
    vstd::arithmetic::div_mod::lemma_div_multiples_vanish(slack, extra);
    assert(extra * slack == slack * extra) by (nonlinear_arith);
    assert(sum_of(base) <= avail);
    assert forall|i: int| 0 <= i < base.len() implies base[i] >= m[i] by {
        lemma_share_bound(n[i] - m[i], slack, extra);
    }
    if base.len() == 0 {
        assert(m =~= Seq::<int>::empty());
    } else {
        let drift = avail - sum_of(base);
        if drift > 0 {
            let u = base.update(base.len() - 1, base.last() + drift);
            assert(u.drop_last() =~= base.drop_last());
        }
    }
}

fn sum_u32(v: &Vec<u32>) -> (r: u32)
    requires
        sum_of(widened(v@)) <= u32::MAX,
    ensures
        r == sum_of(widened(v@)),
{
    let ghost w = widened(v@);
    let mut total: u32 = 0;
    let mut i: usize = 0;
    proof {
        lemma_sum_nonneg_prefix(w, 0);
    }
    while i < v.len()
        invariant
            i <= v@.len(),
            w == widened(v@),
            sum_of(w) <= u32::MAX,
            total == sum_of(w.take(i as int)),
        decreases v@.len() - i,
    {
        proof {
            lemma_sum_take_step(w, i as int);
            lemma_sum_nonneg_prefix(w, i + 1);
        }
        total = total + v[i];
        i = i + 1;
    }
    assert(w.take(i as int) =~= w);
    total
}

fn copy_widths(v: &Vec<u32>) -> (r: Vec<u32>)
    ensures
        r@ == v@,
{
    let mut out: Vec<u32> = Vec::new();
    let mut i: usize = 0;
    while i < v.len()
        invariant
            i <= v@.len(),
            out@ == v@.take(i as int),
        decreases v@.len() - i,
    {
        out.push(v[i]);
        i = i + 1;
        assert(out@ =~= v@.take(i as int));
    }
    assert(v@.take(i as int) =~= v@);
    out
}

proof fn lemma_share_bound(w: int, slack: int, extra: int)
    requires
        0 <= w,
        0 <= slack <= extra,
        0 < extra,
    ensures
        0 <= w * slack / extra <= w,
{
    assert(w * slack <= w * extra) by (nonlinear_arith)
        requires
            0 <= w,
            slack <= extra,
    ;
    assert(0 <= w * slack) by (nonlinear_arith)
        requires
            0 <= w,
            0 <= slack,
    ;
    vstd::arithmetic::div_mod::lemma_div_is_ordered(w * slack, w * extra, extra);
    vstd::arithmetic::div_mod::lemma_div_multiples_vanish(w, extra);
    assert(w * extra == extra * w) by (nonlinear_arith);
    vstd::arithmetic::div_mod::lemma_div_is_ordered(0, w * slack, extra);
}

/// Distributes the table's width over its columns, given each column's
/// minimum width (its longest word) and natural width (its whole text),
/// both with padding. Sums that overflow `u32`, and a minimum above a
/// natural width where the slack is shared, are outside the domain.
pub fn distribute_column_widths(min_widths: &Vec<u32>, natural_widths: &Vec<u32>) -> (r: Vec<u32>)
    requires
        min_widths@.len() == natural_widths@.len(),
        (#[verifier::truncate] (min_widths@.len() as u32)) < u32::MAX,
        sum_of(widened(natural_widths@)) <= u32::MAX,
        sum_of(widened(natural_widths@)) <= available_width(min_widths@.len()) || sum_of(
            widened(min_widths@),
        ) <= u32::MAX,
        sum_of(widened(natural_widths@)) <= available_width(min_widths@.len()) || sum_of(
            widened(min_widths@),
        ) >= available_width(min_widths@.len()) || forall|i: int|
            0 <= i < min_widths@.len() ==> min_widths@[i] <= natural_widths@[i],
    ensures
        widened(r@) == column_widths(min_widths@, natural_widths@),
{
    let columns = min_widths.len();
    let c = #[verifier::truncate] (columns as u32);
    let available = TARGET_WIDTH.saturating_sub(c + 1);
    assert(available == available_width(columns as nat));
    let natural_sum = sum_u32(natural_widths);
    if natural_sum <= available {
        let r = copy_widths(natural_widths);
        return r;
    }
    let min_sum = sum_u32(min_widths);
    if min_sum >= available {
        let r = copy_widths(min_widths);
        return r;
    }
    let slack = available - min_sum;
    let extra_desired = natural_sum - min_sum;
    let ghost m = widened(min_widths@);
    let ghost n = widened(natural_widths@);
    let ghost base = proportional(m, n, slack as int, extra_desired as int);
    let mut widths: Vec<u32> = Vec::new();
    let mut i: usize = 0;
    while i < columns
        invariant
            i <= columns,
            columns == min_widths@.len(),
            columns == natural_widths@.len(),
            m == widened(min_widths@),
            n == widened(natural_widths@),
            base == proportional(m, n, slack as int, extra_desired as int),
            0 < slack < extra_desired,
            forall|k: int| 0 <= k < columns ==> min_widths@[k] <= natural_widths@[k],
            widened(widths@) == base.take(i as int),
        decreases columns - i,
    {
        let want = natural_widths[i] - min_widths[i];
        proof {
            lemma_share_bound(want as int, slack as int, extra_desired as int);
        }
        assert((want as u64) * (slack as u64) <= u64::MAX) by (nonlinear_arith)
            requires
                want <= u32::MAX,
                slack <= u32::MAX,
        ;
        let product = want as u64 * slack as u64;
        let share = (product / extra_desired as u64) as u32;
        proof {
            assert(m[i as int] == min_widths@[i as int] as int);
            assert(n[i as int] == natural_widths@[i as int] as int);
            assert(share as int == (want as int) * (slack as int) / (extra_desired as int));
            assert(base[i as int] == min_widths@[i as int] + share);
        }
        let ghost before = widths@;
        widths.push(min_widths[i] + share);
        assert(widened(widths@) =~= widened(before).push(base[i as int]));
        i = i + 1;
        assert(widened(widths@) =~= base.take(i as int));
    }
    assert(base.take(columns as int) =~= base);
    proof {
        law_column_widths_fill(min_widths@, natural_widths@);
        lemma_share_sum(m, n, slack as int, extra_desired as int, columns as int);
        assert(m.take(columns as int) =~= m);
        assert(n.take(columns as int) =~= n);
        vstd::arithmetic::div_mod::lemma_div_multiples_vanish(slack as int, extra_desired as int);
        assert(extra_desired * slack == slack * extra_desired) by (nonlinear_arith);
        assert(sum_of(base) <= available);
        assert forall|k: int| 0 <= k < base.len() implies base[k] >= 0 by {
            lemma_share_bound(n[k] - m[k], slack as int, extra_desired as int);
        }
    }
    let total = sum_u32(&widths);
    let drift = available as i64 - total as i64;
    if drift > 0 {
        let last = widths.len() - 1;
        let w = widths[last];
        proof {
            assert(base[last as int] >= 0);
            assert(w + drift <= available) by {
                lemma_sum_nonneg_prefix(base, last as int);
                lemma_sum_take_step(base, last as int);
                assert(base.take(last + 1) =~= base);
            }
        }
        widths.set(last, w + drift as u32);
        assert(widened(widths@) =~= base.update(base.len() - 1, base.last() + drift));
    }
    widths
}

} // verus!
