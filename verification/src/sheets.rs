//! Spreadsheet addressing and cell-update values: bijective base-26
//! column letters, A1-notation ranges, and the traffic-light colors a
//! run writes back into the sheet.

use crate::text::{find_from, find_sub};
use vstd::prelude::*;

verus! {

/// The letters of a 1-based column index in bijective base-26:
/// 1 is A, 26 is Z, 27 is AA. Zero and below have no letters.
pub open spec fn col_letters(n: int) -> Seq<char>
    decreases n,
{
    if n <= 0 {
        Seq::empty()
    } else {
        col_letters((n - 1) / 26).push((((n - 1) % 26 + 65) as u8) as char)
    }
}

/// Convert a 1-based column index to its A1-notation letters.
pub fn column_index_to_letter(col: usize) -> (r: Vec<char>)
    ensures
        r@ == col_letters(col as int),
{
    let mut result: Vec<char> = Vec::new();
    let mut c = col;
    while c > 0
        invariant
            col_letters(col as int) == col_letters(c as int) + result@,
        decreases c,
    {
        let ghost c0 = c as int;
        let ghost r0 = result@;
        c = c - 1;
        let d = (c % 26) as u8;
        result.insert(0, (d + 65) as char);
        c = c / 26;
        proof {
            let l = (((c0 - 1) % 26 + 65) as u8) as char;
            assert(col_letters(c0) == col_letters((c0 - 1) / 26).push(l));
            assert(result@ =~= seq![l] + r0);
            assert(col_letters((c0 - 1) / 26).push(l) + r0 =~= col_letters((c0 - 1) / 26) + (seq![
                l] + r0));
        }
    }
    proof {
        assert(col_letters(0) + result@ =~= result@);
    }
    result
}

/// The decimal digits of a non-negative number.
pub open spec fn dec_chars(n: int) -> Seq<char>
    decreases n,
{
    if 0 <= n < 10 {
        seq![((n + 48) as u8) as char]
    } else if n >= 10 {
        dec_chars(n / 10).push(((n % 10 + 48) as u8) as char)
    } else {
        Seq::empty()
    }
}

/// Write a non-negative number in decimal.
pub fn dec_digits(n: usize) -> (r: Vec<char>)
    ensures
        r@ == dec_chars(n as int),
{
    let mut result: Vec<char> = Vec::new();
    if n == 0 {
        result.push('0');
        proof {
            assert(dec_chars(0) =~= seq!['0']);
            assert(result@ =~= seq!['0']);
        }
        return result;
    }
    let mut c = n;
    while c > 0
        invariant
            dec_chars(n as int) == if c > 0 {
                dec_chars(c as int) + result@
            } else {
                result@
            },
        decreases c,
    {
        let ghost c0 = c as int;
        let ghost r0 = result@;
        let d = (c % 10) as u8;
        result.insert(0, (d + 48) as char);
        c = c / 10;
        proof {
            let l = ((c0 % 10 + 48) as u8) as char;
            assert(result@ =~= seq![l] + r0);
            if c0 >= 10 {
                assert(dec_chars(c0) == dec_chars(c0 / 10).push(l));
                assert(dec_chars(c0 / 10).push(l) + r0 =~= dec_chars(c0 / 10) + (seq![l] + r0));
            } else {
                assert(dec_chars(c0) =~= seq![l]);
                assert(dec_chars(c0) + r0 =~= seq![l] + r0);
            }
        }
    }
    result
}

/// The A1-notation range of one cell: sheet name, `!`, column letters,
/// row number.
pub open spec fn a1_of(sheet: Seq<char>, col: int, row: int) -> Seq<char> {
    sheet + seq!['!'] + col_letters(col) + dec_chars(row)
}

/// Address one cell in A1 notation, from 1-based column and row.
pub fn cell_range_a1(sheet: &str, col: usize, row: usize) -> (r: Vec<char>)
    ensures
        r@ == a1_of(sheet@, col as int, row as int),
{
    let mut out = crate::text::chars_of(sheet);
    out.push('!');
    let mut letters = column_index_to_letter(col);
    out.append(&mut letters);
    let mut digits = dec_digits(row);
    out.append(&mut digits);
    proof {
        assert(out@ =~= a1_of(sheet@, col as int, row as int));
    }
    out
}

/// The sheet name of a range: everything before the first `!`, or the
/// whole range when it has none.
pub open spec fn spec_sheet_name(range: Seq<char>) -> Seq<char> {
    match find_from(range, seq!['!'], 0) {
        Some(p) => range.take(p),
        None => range,
    }
}

/// Read the sheet name off a range like `Sheet1!A1:T`.
pub fn sheet_name_of<'a>(range: &'a str) -> (r: &'a str)
    ensures
        r@ == spec_sheet_name(range@),
{
    match find_sub(range, "!") {
        Some(p) => {
            proof {
                crate::text::lemma_find_from_in_range(range@, "!"@, 0, p as int);
                reveal_strlit("!");
                assert("!"@ =~= seq!['!']);
            }
            let r = range.substring_char(0, p);
            proof {
                assert(r@ =~= range@.take(p as int));
            }
            r
        },
        None => {
            proof {
                reveal_strlit("!");
                assert("!"@ =~= seq!['!']);
            }
            range
        },
    }
}

/// The background color written with a cell update: yellow for a
/// deferred outcome, else green on success, else red.
pub open spec fn spec_update_color(success: bool, yellow: bool) -> (u8, u8, u8) {
    if yellow {
        (255u8, 255u8, 0u8)
    } else if success {
        (0u8, 255u8, 0u8)
    } else {
        (255u8, 0u8, 0u8)
    }
}

/// Pick the background color for a record-cell update.
pub fn cell_update_color(success: bool, yellow: bool) -> (r: (u8, u8, u8))
    ensures
        r == spec_update_color(success, yellow),
{
    if yellow {
        (255, 255, 0)
    } else if success {
        (0, 255, 0)
    } else {
        (255, 0, 0)
    }
}

} // verus!
