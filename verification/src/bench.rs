//! The computations of the benchmark: how many files to modify, which
//! records concern the test files, and how a reason is written.

use vstd::prelude::*;
use crate::journal::UsnRecord;
use crate::text::{contains_seq, push_char, str_contains};

verus! {

/// The number of test files modified: one in a hundred, at least one.
pub fn churn_count(count: usize) -> (n: usize)
    ensures
        n == (if count > 100 {
            count
        } else {
            100
        }) / 100,
        n >= 1,
{
    let base = if count > 100 {
        count
    } else {
        100
    };
    base / 100
}

/// Whether a file name is one of the benchmark's test files: it holds both
/// `file_` and `.txt`.
pub open spec fn is_test_file_name(name: Seq<char>) -> bool {
    contains_seq(name, seq!['f', 'i', 'l', 'e', '_']) && contains_seq(name, seq!['.', 't', 'x', 't'])
}

pub fn is_test_file(name: &str) -> (r: bool)
    ensures
        r == is_test_file_name(name@),
{
    let stem = "file_";
    let ext = ".txt";
    proof {
        reveal_strlit("file_");
        reveal_strlit(".txt");
        assert(stem@ =~= seq!['f', 'i', 'l', 'e', '_']);
        assert(ext@ =~= seq!['.', 't', 'x', 't']);
    }
    str_contains(name, stem) && str_contains(name, ext)
}

/// The positions, in increasing order, of the records whose name is a test file's.
pub open spec fn test_record_positions(recs: Seq<UsnRecord>, n: int) -> Seq<usize>
    decreases n,
{
    if n <= 0 {
        Seq::empty()
    } else if is_test_file_name(recs[n - 1].filename@) {
        test_record_positions(recs, n - 1).push((n - 1) as usize)
    } else {
        test_record_positions(recs, n - 1)
    }
}

/// The positions of the records that concern the benchmark's test files.
pub fn test_records(records: &Vec<UsnRecord>) -> (positions: Vec<usize>)
    ensures
        positions@ == test_record_positions(records@, records@.len() as int),
{
    let mut positions: Vec<usize> = Vec::new();
    let mut i: usize = 0;
    while i < records.len()
        invariant
            i <= records@.len(),
            positions@ == test_record_positions(records@, i as int),
        decreases records@.len() - i,
    {
        if is_test_file(records[i].filename.as_str()) {
            positions.push(i);
        }
        i = i + 1;
    }
    positions
}

/// The lowercase hexadecimal digit for `d < 16`.
pub open spec fn hex_digit(d: nat) -> char {
    if d < 10 {
        ('0' as u32 + d) as char
    } else {
        ('a' as u32 + d - 10) as char
    }
}

/// Sixteen to the power `k`.
pub open spec fn pow16(k: nat) -> nat
    decreases k,
{
    if k == 0 {
        1
    } else {
        16 * pow16((k - 1) as nat)
    }
}

/// `0x` followed by the eight lowercase hexadecimal digits of `x`, most
/// significant first.
pub open spec fn reason_hex_text(x: u32) -> Seq<char> {
    seq!['0', 'x'] + Seq::new(8, |k: int| hex_digit(((x as nat) / pow16((7 - k) as nat)) % 16))
}

fn place_value(k: usize) -> (p: u32)
    requires
        k < 8,
    ensures
        p == pow16((7 - k) as nat),
        p >= 1,
{
    reveal_with_fuel(pow16, 8);
    if k == 0 {
        0x1000_0000
    } else if k == 1 {
        0x100_0000
    } else if k == 2 {
        0x10_0000
    } else if k == 3 {
        0x1_0000
    } else if k == 4 {
        0x1000
    } else if k == 5 {
        0x100
    } else if k == 6 {
        0x10
    } else {
        1
    }
}

/// A reason written as `0x` and eight lowercase hexadecimal digits.
pub fn reason_hex(reason: u32) -> (text: String)
    ensures
        text@ == reason_hex_text(reason),
{
    let mut text = String::new();
    push_char(&mut text, '0');
    push_char(&mut text, 'x');
    let ghost digits = Seq::new(
        8,
        |k: int| hex_digit(((reason as nat) / pow16((7 - k) as nat)) % 16),
    );
    let mut k: usize = 0;
    while k < 8
        invariant
            k <= 8,
            text@ == seq!['0', 'x'] + digits.take(k as int),
            digits == Seq::new(
                8,
                |k: int| hex_digit(((reason as nat) / pow16((7 - k) as nat)) % 16),
            ),
        decreases 8 - k,
    {
        let d = (reason / place_value(k)) % 16;
        let c = if d < 10 {
            ((48u8 + d as u8) as char)
        } else {
            ((97u8 + (d - 10) as u8) as char)
        };
        assert(c == hex_digit(d as nat));
        push_char(&mut text, c);
        k = k + 1;
        assert(text@ =~= seq!['0', 'x'] + digits.take(k as int));
    }
    assert(digits.take(8) =~= digits);
    text
}

} // verus!
