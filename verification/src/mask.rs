//! A mask of cells as text: seven lines of seven digits, the top row first,
//! the leftmost column first in each line.

use vstd::prelude::*;
use vstd::string::StringExecFns;
use crate::text::{chars_of, is_digit};
use vstd::std_specs::convert::FromSpecImpl;

verus! {

/// A mask of cells that can be written and read as a grid of digits.
#[derive(Debug, PartialEq, Eq)]
pub struct Mask(pub u64);

/// Bit `k` of `m` is set.
pub open spec fn bit(m: u64, k: int) -> bool {
    (m >> (k as u64)) & 1 == 1
}

/// The character at place `k` of the text of the mask `m`: line after line, the
/// cells of a row from the left, then the end of the line.
pub open spec fn mask_char(m: u64, k: int) -> char {
    let row = 6 - k / 8;
    let col = k % 8;
    if col == 7 {
        '\n'
    } else if bit(m, row + 7 * col) {
        '1'
    } else {
        '0'
    }
}

/// The text of the mask `m`: seven lines for the seven bits of each column,
/// the highest first, and in each line a digit for each of the seven columns.
pub open spec fn mask_text(m: u64) -> Seq<char> {
    Seq::new(56, |k: int| mask_char(m, k))
}

/// `c` is white space, as Unicode defines it.
pub open spec fn is_space(c: char) -> bool {
    let n = c as int;
    ||| 0x09 <= n <= 0x0d
    ||| n == 0x20
    ||| n == 0x85
    ||| n == 0xa0
    ||| n == 0x1680
    ||| 0x2000 <= n <= 0x200a
    ||| n == 0x2028
    ||| n == 0x2029
    ||| n == 0x202f
    ||| n == 0x205f
    ||| n == 0x3000
}

/// `s` without the white space that it begins with.
pub open spec fn trim_start(s: Seq<char>) -> Seq<char>
    decreases s.len(),
{
    if s.len() > 0 && is_space(s[0]) {
        trim_start(s.drop_first())
    } else {
        s
    }
}

/// `s` without the white space that it ends with.
pub open spec fn trim_end(s: Seq<char>) -> Seq<char>
    decreases s.len(),
{
    if s.len() > 0 && is_space(s.last()) {
        trim_end(s.drop_last())
    } else {
        s
    }
}

/// `s` without the white space around it.
pub open spec fn trim(s: Seq<char>) -> Seq<char> {
    trim_end(trim_start(s))
}

/// The place of the first end of line in `s`, or the length of `s` where it
/// holds none.
pub open spec fn first_newline(s: Seq<char>) -> int
    decreases s.len(),
{
    if s.len() == 0 || s[0] == '\n' {
        0
    } else {
        1 + first_newline(s.drop_first())
    }
}

/// The lines of `s`: what stands between its ends of line.
pub open spec fn lines(s: Seq<char>) -> Seq<Seq<char>>
    decreases s.len(),
{
    let k = first_newline(s);
    if 0 <= k < s.len() {
        seq![s.take(k)] + lines(s.skip(k + 1))
    } else {
        seq![s]
    }
}

/// The rows of a grid written as text: its lines, each without the white
/// space around it; white space around the whole does not count.
pub open spec fn rows(text: Seq<char>) -> Seq<Seq<char>> {
    lines(trim(text)).map_values(|line: Seq<char>| trim(line))
}

/// The rows are those of a mask: seven rows of digits, the first of seven
/// digits and the others of seven or more.
pub open spec fn is_grid(rows: Seq<Seq<char>>) -> bool {
    &&& rows.len() == 7
    &&& rows[0].len() == 7
    &&& forall|r: int| 0 <= r < 7 ==> (#[trigger] rows[r]).len() >= 7
    &&& forall|r: int, c: int|
        0 <= r < 7 && 0 <= c < rows[r].len() ==> is_digit(#[trigger] rows[r][c])
}

/// The number that the digit `c` stands for.
pub open spec fn digit_value(c: char) -> u64 {
    (c as u64 - 48) as u64
}

/// The mask of the first `n` bits of a grid: bit `k` belongs to column
/// `k / 7` and to the row `k % 7` from the bottom. A digit other than 0 and 1
/// sets the bits of its number, from its own place upwards.
pub open spec fn grid_mask(rows: Seq<Seq<char>>, n: nat) -> u64
    decreases n,
{
    if n == 0 {
        0
    } else {
        let k = (n - 1) as int;
        grid_mask(rows, (n - 1) as nat) | (digit_value(rows[6 - k % 7][k / 7]) << (k as u64))
    }
}

/// The mask that the text `text` describes, where it describes one.
pub open spec fn parsed_mask(text: Seq<char>) -> Option<u64> {
    if is_grid(rows(text)) {
        Some(grid_mask(rows(text), 49))
    } else {
        None
    }
}

/// Where white space ends at the start of `s`, what is left begins.
pub proof fn lemma_trim_start(s: Seq<char>, lo: int)
    requires
        0 <= lo <= s.len(),
        forall|j: int| 0 <= j < lo ==> is_space(#[trigger] s[j]),
        lo < s.len() ==> !is_space(s[lo]),
    ensures
        trim_start(s) == s.skip(lo),
    decreases lo,
{
    if lo == 0 {
        assert(s.skip(0) =~= s);
    } else {
        assert(is_space(s[0]));
        let rest = s.drop_first();
        assert forall|j: int| 0 <= j < lo - 1 implies is_space(#[trigger] rest[j]) by {
            assert(is_space(s[j + 1]));
        }
        lemma_trim_start(rest, lo - 1);
        assert(rest.skip(lo - 1) =~= s.skip(lo));
    }
}

/// Where white space begins at the end of `s`, what is left ends.
pub proof fn lemma_trim_end(s: Seq<char>, hi: int)
    requires
        0 <= hi <= s.len(),
        forall|j: int| hi <= j < s.len() ==> is_space(#[trigger] s[j]),
        hi > 0 ==> !is_space(s[hi - 1]),
    ensures
        trim_end(s) == s.take(hi),
    decreases s.len() - hi,
{
    if hi == s.len() {
        assert(s.take(hi) =~= s);
    } else {
        assert(is_space(s[s.len() - 1]));
        let rest = s.drop_last();
        lemma_trim_end(rest, hi);
        assert(rest.take(hi) =~= s.take(hi));
    }
}

/// The first end of line is where one stands and none stands before.
pub proof fn lemma_first_newline(s: Seq<char>, k: int)
    requires
        0 <= k <= s.len(),
        forall|j: int| 0 <= j < k ==> #[trigger] s[j] != '\n',
        k < s.len() ==> s[k] == '\n',
    ensures
        first_newline(s) == k,
    decreases k,
{
    if k > 0 {
        let rest = s.drop_first();
        assert(s[0] != '\n');
        assert forall|j: int| 0 <= j < k - 1 implies #[trigger] rest[j] != '\n' by {
            assert(s[j + 1] != '\n');
        }
        lemma_first_newline(rest, k - 1);
    }
}

/// Whether `c` is white space.
pub fn is_whitespace(c: char) -> (space: bool)
    ensures
        space == is_space(c),
{
    let n = c as u32;
    (0x09 <= n && n <= 0x0d) || n == 0x20 || n == 0x85 || n == 0xa0 || n == 0x1680 || (0x2000 <= n
        && n <= 0x200a) || n == 0x2028 || n == 0x2029 || n == 0x202f || n == 0x205f || n == 0x3000
}

/// The characters of `chars` from place `lo` up to place `hi`.
fn copy_range(chars: &Vec<char>, lo: usize, hi: usize) -> (part: Vec<char>)
    requires
        lo <= hi <= chars@.len(),
    ensures
        part@ == chars@.subrange(lo as int, hi as int),
{
    let mut part: Vec<char> = Vec::new();
    let mut i = lo;
    while i < hi
        invariant
            lo <= i <= hi <= chars@.len(),
            part@ == chars@.subrange(lo as int, i as int),
        decreases hi - i,
    {
        part.push(chars[i]);
        assert(part@ =~= chars@.subrange(lo as int, i + 1));
        i += 1;
    }
    part
}

/// `chars` without the white space around it.
fn trimmed(chars: &Vec<char>) -> (inner: Vec<char>)
    ensures
        inner@ == trim(chars@),
{
    let mut lo: usize = 0;
    while lo < chars.len() && is_whitespace(chars[lo])
        invariant
            lo <= chars@.len(),
            forall|j: int| 0 <= j < lo ==> is_space(#[trigger] chars@[j]),
        decreases chars@.len() - lo,
    {
        lo += 1;
    }
    let mut hi: usize = chars.len();
    while hi > lo && is_whitespace(chars[hi - 1])
        invariant
            lo <= hi <= chars@.len(),
            forall|j: int| hi <= j < chars@.len() ==> is_space(#[trigger] chars@[j]),
        decreases hi,
    {
        hi -= 1;
    }
    proof {
        let s = chars@;
        lemma_trim_start(s, lo as int);
        let t = s.skip(lo as int);
        assert forall|j: int| hi - lo <= j < t.len() implies is_space(#[trigger] t[j]) by {
            assert(is_space(s[j + lo]));
        }
        lemma_trim_end(t, hi - lo);
        assert(t.take(hi - lo) =~= s.subrange(lo as int, hi as int));
    }
    copy_range(chars, lo, hi)
}

/// The views of a list of rows.
pub open spec fn views(rows: Seq<Vec<char>>) -> Seq<Seq<char>> {
    rows.map_values(|row: Vec<char>| row@)
}

/// The rows that the text `chars` holds.
#[verifier::loop_isolation(false)]
fn read_rows(chars: &Vec<char>) -> (found: Vec<Vec<char>>)
    ensures
        views(found@) == lines(chars@).map_values(|line: Seq<char>| trim(line)),
{
    let mut found: Vec<Vec<char>> = Vec::new();
    let mut start: usize = 0;
    let ghost mut done: Seq<Seq<char>> = Seq::empty();
    proof {
        assert(chars@.skip(0) =~= chars@);
        assert(done + lines(chars@) =~= lines(chars@));
        assert(views(found@) =~= done.map_values(|line: Seq<char>| trim(line)));
    }
    loop
        invariant
            start <= chars@.len(),
            lines(chars@) == done + lines(chars@.skip(start as int)),
            views(found@) == done.map_values(|line: Seq<char>| trim(line)),
        decreases chars@.len() - start,
    {
        let mut end = start;
        while end < chars.len() && chars[end] != '\n'
            invariant
                start <= end <= chars@.len(),
                forall|j: int| start <= j < end ==> #[trigger] chars@[j] != '\n',
            decreases chars@.len() - end,
        {
            end += 1;
        }
        let line = copy_range(chars, start, end);
        let row = trimmed(&line);
        let ghost rest = chars@.skip(start as int);
        proof {
            assert forall|j: int| 0 <= j < end - start implies #[trigger] rest[j] != '\n' by {
                assert(chars@[j + start] != '\n');
            }
            lemma_first_newline(rest, end - start);
            assert(rest.take(end - start) =~= line@);
        }
        let ghost before = found@;
        found.push(row);
        proof {
            assert(views(found@) =~= views(before).push(trim(line@)));
            assert(done.push(line@).map_values(|line: Seq<char>| trim(line)) =~= done.map_values(
                |line: Seq<char>| trim(line),
            ).push(trim(line@)));
        }
        if end >= chars.len() {
            proof {
                assert(rest.take(end - start) =~= rest);
                assert(lines(rest) == seq![rest]);
                let all = done + seq![rest];
                assert(all =~= done.push(line@));
                assert(lines(chars@) == all);
            }
            return found;
        }
        proof {
            assert(rest.skip(end - start + 1) =~= chars@.skip(end + 1));
            let next = done.push(line@);
            assert(done + (seq![line@] + lines(chars@.skip(end + 1))) =~= next + lines(
                chars@.skip(end + 1),
            ));
            done = next;
        }
        start = end + 1;
    }
}

/// Whether the rows are those of a mask.
#[verifier::loop_isolation(false)]
fn check_grid(found: &Vec<Vec<char>>) -> (good: bool)
    ensures
        good == is_grid(views(found@)),
{
    if found.len() != 7 {
        return false;
    }
    if found[0].len() != 7 {
        assert(views(found@)[0] == found@[0]@);
        return false;
    }
    let mut r: usize = 0;
    while r < 7
        invariant
            r <= 7,
            found@.len() == 7,
            found@[0]@.len() == 7,
            forall|q: int| 0 <= q < r ==> (#[trigger] views(found@)[q]).len() >= 7,
            forall|q: int, c: int|
                0 <= q < r && 0 <= c < views(found@)[q].len() ==> is_digit(
                    #[trigger] views(found@)[q][c],
                ),
        decreases 7 - r,
    {
        let row = &found[r];
        assert(views(found@)[r as int] == row@);
        if row.len() < 7 {
            return false;
        }
        let mut c: usize = 0;
        while c < row.len()
            invariant
                c <= row@.len(),
                forall|d: int| 0 <= d < c ==> is_digit(#[trigger] row@[d]),
            decreases row@.len() - c,
        {
            let ch = row[c];
            if !('0' <= ch && ch <= '9') {
                assert(!is_digit(views(found@)[r as int][c as int]));
                return false;
            }
            c += 1;
        }
        r += 1;
    }
    assert(views(found@)[0] == found@[0]@);
    true
}

impl From<Mask> for u64 {
    fn from(mask: Mask) -> (m: u64)
        ensures
            m == mask.0,
    {
        mask.0
    }
}

impl FromSpecImpl<Mask> for u64 {
    open spec fn obeys_from_spec() -> bool {
        true
    }

    open spec fn from_spec(mask: Mask) -> u64 {
        mask.0
    }
}

impl Mask {
    /// The mask that the text `s` describes, where it describes one: seven
    /// lines of seven digits, the top row first.
    pub fn parse(s: &str) -> (mask: Option<Mask>)
        ensures
            match mask {
                Some(m) => parsed_mask(s@) == Some(m.0),
                None => parsed_mask(s@) is None,
            },
    {
        let chars = chars_of(s);
        let inner = trimmed(&chars);
        let found = read_rows(&inner);
        if !check_grid(&found) {
            return None;
        }
        let ghost grid = views(found@);
        assert(grid == rows(s@));
        let mut rv: u64 = 0;
        let mut pow: u8 = 0;
        let mut i: usize = 0;
        while i < 7
            invariant
                i <= 7,
                pow == 7 * i,
                grid == views(found@),
                is_grid(grid),
                rv == grid_mask(grid, pow as nat),
            decreases 7 - i,
        {
            let mut j: usize = 0;
            while j < 7
                invariant
                    i < 7,
                    j <= 7,
                    pow == 7 * i + j,
                    grid == views(found@),
                    is_grid(grid),
                    rv == grid_mask(grid, pow as nat),
                decreases 7 - j,
            {
                let row = &found[6 - j];
                assert(grid[6 - j] == row@);
                assert(row@.len() >= 7);
                let ch = row[i];
                assert(is_digit(grid[6 - j][i as int]));
                let digit: u64 = (ch as u8 - 48) as u64;
                assert(digit == digit_value(ch));
                assert(pow as int % 7 == j && pow as int / 7 == i);
                rv |= digit << pow;
                pow += 1;
                j += 1;
            }
            i += 1;
        }
        Some(Mask(rv))
    }

    /// The mask that the text `s` describes.
    pub fn from(s: &str) -> (mask: Mask)
        requires
            parsed_mask(s@) is Some,
        ensures
            Some(mask.0) == parsed_mask(s@),
    {
        match Mask::parse(s) {
            Some(mask) => mask,
            None => Mask(0),
        }
    }

    /// The mask as a grid of digits.
    #[verifier::loop_isolation(false)]
    pub fn to_string(&self) -> (text: String)
        ensures
            text@ == mask_text(self.0),
    {
        let mut text = String::new();
        let mut line: u8 = 0;
        proof {
            reveal_strlit("0");
            reveal_strlit("1");
            reveal_strlit("\n");
        }
        while line < 7
            invariant
                line <= 7,
                text@ == mask_text(self.0).take(8 * line),
            decreases 7 - line,
        {
            let row: u8 = 6 - line;
            let mut col: u8 = 0;
            while col < 7
                invariant
                    col <= 7,
                    line < 7,
                    row == 6 - line,
                    text@ == mask_text(self.0).take(8 * line + col),
                decreases 7 - col,
            {
                let shift: u8 = row + col * 7;
                let digit = if (self.0 >> shift) & 1 == 1 {
                    "1"
                } else {
                    "0"
                };
                text.append(digit);
                proof {
                    let k = 8 * line + col;
                    assert(k / 8 == line as int && k % 8 == col as int);
                    assert(mask_text(self.0)[k] == digit@[0]);
                    assert(text@ =~= mask_text(self.0).take(k + 1));
                }
                col += 1;
            }
            text.append("\n");
            proof {
                let k = 8 * line + 7;
                assert(k / 8 == line as int && k % 8 == 7);
                assert(text@ =~= mask_text(self.0).take(k + 1));
            }
            line += 1;
        }
        assert(text@ =~= mask_text(self.0));
        text
    }
}

} // verus!
