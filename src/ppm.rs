use vstd::prelude::*;
use vstd::string::*;

verus! {

/// The longest line a plain PPM file should hold, in characters.
pub const LINE_LIMIT: usize = 70;

/// The character of a decimal digit.
pub open spec fn digit_char(d: int) -> char {
    if d == 0 {
        '0'
    } else if d == 1 {
        '1'
    } else if d == 2 {
        '2'
    } else if d == 3 {
        '3'
    } else if d == 4 {
        '4'
    } else if d == 5 {
        '5'
    } else if d == 6 {
        '6'
    } else if d == 7 {
        '7'
    } else if d == 8 {
        '8'
    } else {
        '9'
    }
}

/// `n` written in decimal, without leading zeros.
pub open spec fn decimal(n: nat) -> Seq<char>
    decreases n,
{
    if n < 10 {
        seq![digit_char(n as int)]
    } else {
        decimal(n / 10).push(digit_char((n % 10) as int))
    }
}

/// The values written in decimal and separated by single spaces.
pub open spec fn joined(values: Seq<u8>) -> Seq<char>
    decreases values.len(),
{
    if values.len() == 0 {
        Seq::empty()
    } else if values.len() == 1 {
        decimal(values[0] as nat)
    } else {
        joined(values.drop_last()) + seq![' '] + decimal(values.last() as nat)
    }
}

/// The position of the last space before position `k`, or -1 if there is none.
pub open spec fn last_space(line: Seq<char>, k: int) -> int
    decreases k,
{
    if k <= 0 {
        -1
    } else if line[k - 1] == ' ' {
        k - 1
    } else {
        last_space(line, k - 1)
    }
}

/// A line longer than the limit has its last space within the limit turned
/// into a line break; a shorter one is kept as it is.
pub open spec fn split_line(line: Seq<char>) -> Seq<char> {
    if line.len() <= LINE_LIMIT {
        line
    } else {
        line.update(last_space(line, LINE_LIMIT as int), '\n')
    }
}

/// The channel values of pixel row `r` of an image `width` pixels wide.
pub open spec fn row_values(channels: Seq<u8>, width: nat, r: nat) -> Seq<u8> {
    channels.subrange((3 * width * r) as int, (3 * width * (r + 1)) as int)
}

/// The first `rows` pixel rows, one line each, separated by line breaks.
pub open spec fn body(channels: Seq<u8>, width: nat, rows: nat) -> Seq<char>
    decreases rows,
{
    if rows == 0 {
        Seq::empty()
    } else if rows == 1 {
        split_line(joined(row_values(channels, width, 0)))
    } else {
        body(channels, width, (rows - 1) as nat) + seq!['\n'] + split_line(
            joined(row_values(channels, width, (rows - 1) as nat)),
        )
    }
}

/// The header of a plain PPM file with 255 as the largest channel value.
pub open spec fn header(width: nat, height: nat) -> Seq<char> {
    seq!['P', '3', '\n'] + decimal(width) + seq![' '] + decimal(height) + seq![
        '\n',
        '2',
        '5',
        '5',
        '\n',
    ]
}

/// A whole plain PPM file: the header, the pixel rows, a final line break.
pub open spec fn ppm_text(width: nat, height: nat, channels: Seq<u8>) -> Seq<char> {
    header(width, height) + body(channels, width, height) + seq!['\n']
}

fn digit_str(d: usize) -> (r: &'static str)
    requires
        d < 10,
    ensures
        r@ == seq![digit_char(d as int)],
{
    let digits = "0123456789";
    proof {
        reveal_strlit("0123456789");
    }
    let r = digits.substring_char(d, d + 1);
    assert(r@ =~= seq![digit_char(d as int)]);
    r
}

/// `n` written in decimal.
pub fn decimal_string(n: usize) -> (r: String)
    ensures
        r@ == decimal(n as nat),
    decreases n,
{
    let mut s = if n < 10 {
        String::new()
    } else {
        decimal_string(n / 10)
    };
    s.append(digit_str(n % 10));
    proof {
        if n < 10 {
            assert(s@ =~= decimal(n as nat));
        }
    }
    s
}

/// Bounds on the length of a short number written in decimal.
pub proof fn lemma_decimal_len(n: nat)
    ensures
        decimal(n).len() >= 1,
        n < 10 ==> decimal(n).len() == 1,
        n < 100 ==> decimal(n).len() <= 2,
        n < 1000 ==> decimal(n).len() <= 3,
    decreases n,
{
    if n >= 10 {
        lemma_decimal_len(n / 10);
    }
}

/// In two or more joined values, a space follows the first one.
proof fn lemma_space_after_first(values: Seq<u8>)
    requires
        values.len() >= 2,
    ensures
        decimal(values[0] as nat).len() < joined(values).len(),
        joined(values)[decimal(values[0] as nat).len() as int] == ' ',
    decreases values.len(),
{
    let rest = values.drop_last();
    if values.len() == 2 {
        assert(joined(rest) == decimal(values[0] as nat));
    } else {
        lemma_space_after_first(rest);
    }
}

/// A line of joined channel values that is too long has a space within the limit.
proof fn lemma_row_breakable(values: Seq<u8>)
    requires
        joined(values).len() > LINE_LIMIT,
    ensures
        exists|i: int| 0 <= i < LINE_LIMIT && joined(values)[i] == ' ',
{
    lemma_decimal_len(values[0] as nat);
    if values.len() >= 2 {
        lemma_space_after_first(values);
        let i = decimal(values[0] as nat).len() as int;
        assert(0 <= i < LINE_LIMIT && joined(values)[i] == ' ');
    }
}

/// Where the last space before `k` stands, if there is one.
proof fn lemma_last_space(line: Seq<char>, k: int)
    requires
        0 <= k <= line.len(),
    ensures
        -1 <= last_space(line, k) < k,
        last_space(line, k) >= 0 ==> line[last_space(line, k)] == ' ',
        last_space(line, k) == -1 <==> forall|i: int| 0 <= i < k ==> line[i] != ' ',
    decreases k,
{
    if k > 0 {
        lemma_last_space(line, k - 1);
    }
}

fn join_values(values: &Vec<u8>, lo: usize, hi: usize) -> (r: String)
    requires
        lo <= hi <= values@.len(),
    ensures
        r@ == joined(values@.subrange(lo as int, hi as int)),
{
    let mut s = String::new();
    let mut i: usize = lo;
    while i < hi
        invariant
            lo <= i <= hi <= values@.len(),
            s@ == joined(values@.subrange(lo as int, i as int)),
        decreases hi - i,
    {
        let ghost before = s@;
        let ghost sub = values@.subrange(lo as int, i + 1);
        proof {
            assert(sub.drop_last() =~= values@.subrange(lo as int, i as int));
            reveal_strlit(" ");
        }
        if i > lo {
            s.append(" ");
        }
        let d = decimal_string(values[i] as usize);
        s.append(d.as_str());
        proof {
            if i == lo {
                assert(s@ =~= joined(sub));
            } else {
                assert(s@ =~= before + seq![' '] + decimal(values@[i as int] as nat));
            }
        }
        i = i + 1;
    }
    s
}

/// Breaks a line of a PPM file that is longer than the limit at its last
/// space within the limit; a shorter line comes back as it is. Positions and
/// the length are counted in characters, which for the ASCII text of a PPM
/// file are its bytes.
pub fn split_long_ppm_line(line: &str) -> (r: String)
    requires
        line@.len() > LINE_LIMIT ==> exists|i: int| 0 <= i < LINE_LIMIT && line@[i] == ' ',
    ensures
        r@ == split_line(line@),
{
    let n = line.unicode_len();
    if n <= LINE_LIMIT {
        return line.to_owned();
    }
    let mut k: usize = LINE_LIMIT;
    while k > 0 && line.get_char(k - 1) != ' '
        invariant
            k <= LINE_LIMIT < n == line@.len(),
            last_space(line@, k as int) == last_space(line@, LINE_LIMIT as int),
        decreases k,
    {
        k = k - 1;
    }
    proof {
        lemma_last_space(line@, LINE_LIMIT as int);
        lemma_last_space(line@, k as int);
    }
    let i = k - 1;
    let mut r = line.substring_char(0, i).to_owned();
    proof {
        reveal_strlit("\n");
    }
    r.append("\n");
    r.append(line.substring_char(i + 1, n));
    assert(r@ =~= line@.update(i as int, '\n'));
    r
}

/// The plain PPM file of an image `width` pixels wide and `height` high whose
/// pixels, row after row, have the red, green and blue values in `channels`.
pub fn ppm_document(width: usize, height: usize, channels: &Vec<u8>) -> (r: String)
    requires
        width > 0,
        channels@.len() == 3 * width * height,
    ensures
        r@ == ppm_text(width as nat, height as nat, channels@),
{
    proof {
        reveal_strlit("P3\n");
        reveal_strlit(" ");
        reveal_strlit("\n255\n");
        reveal_strlit("\n");
    }
    let mut s = "P3\n".to_owned();
    let w = decimal_string(width);
    s.append(w.as_str());
    s.append(" ");
    let h = decimal_string(height);
    s.append(h.as_str());
    s.append("\n255\n");
    assert(s@ =~= header(width as nat, height as nat));
    let total = channels.len();
    let mut r: usize = 0;
    while r < height
        invariant
            width > 0,
            r <= height,
            channels@.len() == 3 * width * height == total,
            s@ == header(width as nat, height as nat) + body(channels@, width as nat, r as nat),
        decreases height - r,
    {
        proof {
            assert(3 * width * (r + 1) <= 3 * width * height) by (nonlinear_arith)
                requires
                    r + 1 <= height,
            ;
            assert(3 * width * r <= 3 * width * (r + 1)) by (nonlinear_arith);
            assert(3 * width <= 3 * width * (r + 1)) by (nonlinear_arith);
            reveal_strlit("\n");
        }
        let ghost before = s@;
        let lo = 3 * width * r;
        let hi = 3 * width * (r + 1);
        let row = join_values(channels, lo, hi);
        proof {
            if row@.len() > LINE_LIMIT {
                lemma_row_breakable(channels@.subrange(lo as int, hi as int));
            }
        }
        let line = split_long_ppm_line(row.as_str());
        if r > 0 {
            s.append("\n");
        }
        s.append(line.as_str());
        proof {
            assert(row_values(channels@, width as nat, r as nat) == channels@.subrange(
                lo as int,
                hi as int,
            ));
            if r == 0 {
                assert(s@ =~= header(width as nat, height as nat) + body(
                    channels@,
                    width as nat,
                    (r + 1) as nat,
                ));
            } else {
                assert(body(channels@, width as nat, (r + 1) as nat) == body(
                    channels@,
                    width as nat,
                    r as nat,
                ) + seq!['\n'] + split_line(joined(row_values(channels@, width as nat, r as nat))));
                assert(s@ =~= header(width as nat, height as nat) + body(
                    channels@,
                    width as nat,
                    (r + 1) as nat,
                ));
            }
        }
        r = r + 1;
    }
    s.append("\n");
    s
}

} // verus!
