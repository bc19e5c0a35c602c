//! Plain-text PPM ("P3"): a header, then each row of the image as decimal
//! samples, broken into lines of at most seventy characters.

use vstd::prelude::*;
use vstd::string::StringExecFns;
use crate::scalar::Scalar;

verus! {

/// No line of pixel data is longer than this.
pub const LINE_LIMIT: usize = 70;

/// The character of a decimal digit.
pub open spec fn digit(d: int) -> char {
    if d == 0 {
        '0'
    } else if d == 1 {
        '1'
    } else if d == 2 {
        '2'
    } else if d == 3 {
        '3'
    } else if d == 4 {
        '4'
    } else if d == 5 {
        '5'
    } else if d == 6 {
        '6'
    } else if d == 7 {
        '7'
    } else if d == 8 {
        '8'
    } else {
        '9'
    }
}

/// A natural number in decimal, without leading zeros.
pub open spec fn decimal(n: nat) -> Seq<char>
    decreases n,
{
    if n < 10 {
        seq![digit(n as int)]
    } else {
        decimal(n / 10).push(digit((n % 10) as int))
    }
}

/// The three header lines: the format, the size, the largest sample.
pub open spec fn header(width: nat, height: nat) -> Seq<char> {
    seq!['P', '3', '\n'] + decimal(width) + seq![' '] + decimal(height) + seq![
        '\n',
        '2',
        '5',
        '5',
        '\n',
    ]
}

/// A row in the making: the lines that are closed, each with its line feed, and
/// the line that is still open.
pub struct Lines {
    pub closed: Seq<char>,
    pub open: Seq<char>,
}

/// Adds one number to a row: where it no longer fits on the open line with a
/// space before it, the open line is closed first.
pub open spec fn place(lines: Lines, text: Seq<char>) -> Lines {
    let lines = if lines.open.len() + text.len() + 1 > LINE_LIMIT {
        Lines { closed: lines.closed + lines.open + seq!['\n'], open: Seq::empty() }
    } else {
        lines
    };
    Lines {
        closed: lines.closed,
        open: if lines.open.len() == 0 {
            text
        } else {
            lines.open + seq![' '] + text
        },
    }
}

/// The row after its first `n` samples have been placed.
pub open spec fn placed(samples: Seq<u8>, n: int) -> Lines
    decreases n,
{
    if n <= 0 {
        Lines { closed: Seq::empty(), open: Seq::empty() }
    } else {
        place(placed(samples, n - 1), decimal(samples[n - 1] as nat))
    }
}

/// A whole row of samples as text: every line closed.
pub open spec fn row_text(samples: Seq<u8>) -> Seq<char> {
    let lines = placed(samples, samples.len() as int);
    lines.closed + lines.open + seq!['\n']
}

/// The samples of row `y` of an image `width` pixels wide, three to a pixel.
pub open spec fn row_samples(width: nat, samples: Seq<u8>, y: int) -> Seq<u8> {
    samples.subrange(y * (3 * width), (y + 1) * (3 * width))
}

/// The text of the first `n` rows.
pub open spec fn rows_text(width: nat, samples: Seq<u8>, n: int) -> Seq<char>
    decreases n,
{
    if n <= 0 {
        Seq::empty()
    } else {
        rows_text(width, samples, n - 1) + row_text(row_samples(width, samples, n - 1))
    }
}

/// The whole document.
pub open spec fn ppm_text(width: nat, height: nat, samples: Seq<u8>) -> Seq<char> {
    header(width, height) + rows_text(width, samples, height as int)
}

/// Whether a line feed stands among the characters of `text` from `i` to
/// `i + LINE_LIMIT`, which are one more than a line may hold.
pub open spec fn breaks_within(text: Seq<char>, i: int) -> bool {
    exists|j: int| i <= j <= i + LINE_LIMIT && j < text.len() && #[trigger] text[j] == '\n'
}

/// Whether no line of `text` is longer than `LINE_LIMIT`: wherever one more
/// character than that stands in a row, a line feed is among them.
pub open spec fn lines_fit(text: Seq<char>) -> bool {
    forall|i: int| 0 <= i && i + LINE_LIMIT < text.len() ==> #[trigger] breaks_within(text, i)
}

/// Whether `text` is empty or ends in a line feed.
pub open spec fn ends_lines(text: Seq<char>) -> bool {
    text.len() == 0 || text.last() == '\n'
}

/// Ten to the power of `k`.
pub open spec fn ten_to(k: nat) -> nat
    decreases k,
{
    if k == 0 {
        1
    } else {
        10 * ten_to((k - 1) as nat)
    }
}

/// A number below ten to the `k` has at most `k` digits.
pub proof fn lemma_decimal_len(n: nat, k: nat)
    requires
        k >= 1,
        n < ten_to(k),
    ensures
        1 <= decimal(n).len() <= k,
    decreases k,
{
    reveal_with_fuel(ten_to, 2);
    if n >= 10 {
        lemma_decimal_len(n / 10, (k - 1) as nat);
    }
}

/// A text of complete lines that fit, followed by a text of lines that fit, is a
/// text of lines that fit.
pub proof fn lemma_lines_fit_joined(a: Seq<char>, b: Seq<char>)
    requires
        lines_fit(a),
        ends_lines(a),
        lines_fit(b),
    ensures
        lines_fit(a + b),
{
    let text = a + b;
    assert forall|i: int| 0 <= i && i + LINE_LIMIT < text.len() implies #[trigger] breaks_within(
        text,
        i,
    ) by {
        if i + LINE_LIMIT < a.len() {
            assert(breaks_within(a, i));
            let j = choose|j: int| i <= j <= i + LINE_LIMIT && j < a.len() && #[trigger] a[j] == '\n';
            assert(text[j] == '\n');
        } else if i < a.len() {
            assert(text[a.len() - 1] == '\n');
        } else {
            assert(breaks_within(b, i - a.len()));
            let j = choose|j: int|
                i - a.len() <= j <= i - a.len() + LINE_LIMIT && j < b.len() && #[trigger] b[j]
                    == '\n';
            assert(text[j + a.len()] == '\n');
        }
    }
}

/// A single line that is not too long fits.
pub proof fn lemma_one_line_fits(line: Seq<char>)
    requires
        line.len() <= LINE_LIMIT,
    ensures
        lines_fit(line + seq!['\n']),
        ends_lines(line + seq!['\n']),
{
    let text = line + seq!['\n'];
    assert forall|i: int| 0 <= i && i + LINE_LIMIT < text.len() implies #[trigger] breaks_within(
        text,
        i,
    ) by {
        assert(text[text.len() - 1] == '\n');
    }
}

/// While a row is being placed, its closed lines fit and are complete, and its
/// open line is not too long.
pub proof fn lemma_placed(samples: Seq<u8>, n: int)
    requires
        0 <= n <= samples.len(),
    ensures
        lines_fit(placed(samples, n).closed),
        ends_lines(placed(samples, n).closed),
        placed(samples, n).open.len() <= LINE_LIMIT,
    decreases n,
{
    if n > 0 {
        lemma_placed(samples, n - 1);
        let before = placed(samples, n - 1);
        let text = decimal(samples[n - 1] as nat);
        assert(1 <= text.len() <= 3) by {
            reveal_with_fuel(ten_to, 4);
            lemma_decimal_len(samples[n - 1] as nat, 3);
        }
        if before.open.len() + text.len() + 1 > LINE_LIMIT {
            lemma_one_line_fits(before.open);
            lemma_lines_fit_joined(before.closed, before.open + seq!['\n']);
            assert(before.closed + (before.open + seq!['\n']) =~= before.closed + before.open
                + seq!['\n']);
        }
    }
}

/// No line of a row is too long, and every line of it is complete.
pub proof fn lemma_row_text(samples: Seq<u8>)
    ensures
        lines_fit(row_text(samples)),
        ends_lines(row_text(samples)),
        row_text(samples).len() > 0,
{
    let lines = placed(samples, samples.len() as int);
    lemma_placed(samples, samples.len() as int);
    lemma_one_line_fits(lines.open);
    lemma_lines_fit_joined(lines.closed, lines.open + seq!['\n']);
    assert(lines.closed + (lines.open + seq!['\n']) =~= row_text(samples));
}

/// No line of the pixel data is too long, and every line of it is complete.
pub proof fn lemma_rows_text(width: nat, samples: Seq<u8>, n: int)
    ensures
        lines_fit(rows_text(width, samples, n)),
        ends_lines(rows_text(width, samples, n)),
    decreases n,
{
    if n > 0 {
        lemma_rows_text(width, samples, n - 1);
        lemma_row_text(row_samples(width, samples, n - 1));
        lemma_lines_fit_joined(
            rows_text(width, samples, n - 1),
            row_text(row_samples(width, samples, n - 1)),
        );
    }
}

/// No line of a document is longer than seventy characters, and the document
/// ends in a line feed. The sizes are those that a canvas can have.
pub proof fn lemma_ppm_text(width: nat, height: nat, samples: Seq<u8>)
    requires
        width <= i32::MAX,
        height <= i32::MAX,
    ensures
        lines_fit(ppm_text(width, height, samples)),
        ppm_text(width, height, samples).len() > 0,
        ppm_text(width, height, samples).last() == '\n',
{
    reveal_with_fuel(ten_to, 11);
    lemma_decimal_len(width, 10);
    lemma_decimal_len(height, 10);
    let magic = seq!['P', '3'];
    let size = decimal(width) + seq![' '] + decimal(height);
    let depth = seq!['2', '5', '5'];
    lemma_one_line_fits(magic);
    lemma_one_line_fits(size);
    lemma_one_line_fits(depth);
    lemma_lines_fit_joined(magic + seq!['\n'], size + seq!['\n']);
    lemma_lines_fit_joined(magic + seq!['\n'] + (size + seq!['\n']), depth + seq!['\n']);
    let head = magic + seq!['\n'] + (size + seq!['\n']) + (depth + seq!['\n']);
    assert(head =~= header(width, height));
    lemma_rows_text(width, samples, height as int);
    lemma_lines_fit_joined(head, rows_text(width, samples, height as int));
}

/// Brings a colour part into a range: what lies above `max` becomes `max`,
/// what lies below `min` becomes `min`, and everything else stays as it is,
/// also what is not a number.
pub fn clamp(value: Scalar, min: Scalar, max: Scalar) -> (r: Scalar)
    ensures
        r == if max.less(value) {
            max
        } else if value.less(min) {
            min
        } else {
            value
        },
{
    if value.gt(max) {
        max
    } else if value.lt(min) {
        min
    } else {
        value
    }
}

fn digit_text(d: u32) -> (s: &'static str)
    requires
        d < 10,
    ensures
        s@ == seq![digit(d as int)],
{
    proof {
        reveal_strlit("0");
        reveal_strlit("1");
        reveal_strlit("2");
        reveal_strlit("3");
        reveal_strlit("4");
        reveal_strlit("5");
        reveal_strlit("6");
        reveal_strlit("7");
        reveal_strlit("8");
        reveal_strlit("9");
    }
    let s = if d == 0 {
        "0"
    } else if d == 1 {
        "1"
    } else if d == 2 {
        "2"
    } else if d == 3 {
        "3"
    } else if d == 4 {
        "4"
    } else if d == 5 {
        "5"
    } else if d == 6 {
        "6"
    } else if d == 7 {
        "7"
    } else if d == 8 {
        "8"
    } else {
        "9"
    };
    assert(s@ =~= seq![digit(d as int)]);
    s
}

fn push_decimal(out: &mut String, n: u32)
    ensures
        final(out)@ == old(out)@ + decimal(n as nat),
    decreases n,
{
    if n >= 10 {
        push_decimal(out, n / 10);
    }
    out.append(digit_text(n % 10));
    assert(out@ =~= old(out)@ + decimal(n as nat));
}

fn decimal_len(n: u8) -> (len: usize)
    ensures
        len == decimal(n as nat).len(),
        1 <= len <= 3,
{
    reveal_with_fuel(decimal, 3);
    if n < 10 {
        1
    } else if n < 100 {
        2
    } else {
        3
    }
}

fn push_row(out: &mut String, samples: &Vec<u8>, start: usize, end: usize)
    requires
        start <= end <= samples.len(),
    ensures
        final(out)@ == old(out)@ + row_text(samples@.subrange(start as int, end as int)),
{
    let ghost row = samples@.subrange(start as int, end as int);
    let mut at: usize = start;
    let mut open_len: usize = 0;
    while at < end
        invariant
            start <= at <= end <= samples.len(),
            row == samples@.subrange(start as int, end as int),
            open_len == placed(row, at - start).open.len(),
            open_len <= LINE_LIMIT,
            out@ == old(out)@ + placed(row, at - start).closed + placed(row, at - start).open,
        decreases end - at,
    {
        let sample: u8 = samples[at];
        let ghost before = placed(row, at - start);
        let ghost text = decimal(sample as nat);
        assert(row[at - start] == sample);
        assert(placed(row, at - start + 1) == place(before, text));
        let text_len: usize = decimal_len(sample);
        if open_len + text_len + 1 > LINE_LIMIT {
            proof {
                reveal_strlit("\n");
            }
            out.append("\n");
            open_len = 0;
        }
        if open_len > 0 {
            proof {
                reveal_strlit(" ");
            }
            out.append(" ");
            open_len = open_len + 1;
        }
        push_decimal(out, sample as u32);
        open_len = open_len + text_len;
        at = at + 1;
        assert(out@ =~= old(out)@ + place(before, text).closed + place(before, text).open);
    }
    proof {
        reveal_strlit("\n");
        assert(row.len() == end - start);
    }
    out.append("\n");
    assert(out@ =~= old(out)@ + row_text(row));
}

/// Writes an image out as plain-text PPM. `samples` holds the image row by row,
/// three samples to a pixel (red, green, blue), each already brought to the
/// range of a byte.
pub fn canvas_to_ppm(width: i32, height: i32, samples: &Vec<u8>) -> (text: String)
    requires
        0 <= width,
        0 <= height,
        samples.len() == 3 * width * height,
    ensures
        text@ == ppm_text(width as nat, height as nat, samples@),
        lines_fit(text@),
        text@.len() > 0 && text@.last() == '\n',
{
    proof {
        lemma_ppm_text(width as nat, height as nat, samples@);
    }
    let mut out = String::new();
    proof {
        reveal_strlit("P3\n");
        reveal_strlit(" ");
        reveal_strlit("\n255\n");
    }
    out.append("P3\n");
    push_decimal(&mut out, width as u32);
    out.append(" ");
    push_decimal(&mut out, height as u32);
    out.append("\n255\n");
    assert(out@ =~= header(width as nat, height as nat));
    if height == 0 {
        assert(out@ =~= ppm_text(width as nat, height as nat, samples@));
        return out;
    }
    assert(3 * width <= 3 * width * height) by (nonlinear_arith)
        requires
            0 <= width,
            1 <= height,
    ;
    let per_row: usize = 3 * (width as usize);
    let rows: usize = height as usize;
    assert(per_row * rows == 3 * width * height) by (nonlinear_arith)
        requires
            per_row == 3 * width,
            rows == height,
    ;
    let mut y: usize = 0;
    while y < rows
        invariant
            0 <= y <= rows,
            rows == height,
            per_row == 3 * width,
            samples.len() == per_row * rows,
            out@ == header(width as nat, height as nat) + rows_text(
                width as nat,
                samples@,
                y as int,
            ),
        decreases rows - y,
    {
        assert(y * per_row + per_row <= per_row * rows) by (nonlinear_arith)
            requires
                y < rows,
        ;
        assert((y + 1) * (3 * (width as nat)) == y * per_row + per_row) by (nonlinear_arith)
            requires
                per_row == 3 * width,
                width >= 0,
        ;
        assert(y * (3 * (width as nat)) == y * per_row) by (nonlinear_arith)
            requires
                per_row == 3 * width,
                width >= 0,
        ;
        let start: usize = y * per_row;
        push_row(&mut out, samples, start, start + per_row);
        y = y + 1;
        assert(out@ =~= header(width as nat, height as nat) + rows_text(
            width as nat,
            samples@,
            y as int,
        ));
    }
    out
}

} // verus!
