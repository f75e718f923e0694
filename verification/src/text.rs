//! Small verified helpers for building strings: collecting a range of
//! characters, and rendering an unsigned number in decimal (used by the
//! error-message renderers).
use vstd::prelude::*;

verus! {

/// Relies on String::push: appends exactly the one character.
#[verifier::external_body]
pub(crate) fn push_char(s: &mut String, c: char)
    ensures
        final(s)@ == old(s)@.push(c),
{
    s.push(c);
}

/// Builds the string of the characters `v[lo..hi]`.
pub(crate) fn collect_range(v: &Vec<char>, lo: usize, hi: usize) -> (s: String)
    requires
        lo <= hi <= v@.len(),
    ensures
        s@ == v@.subrange(lo as int, hi as int),
{
    let mut s = String::new();
    let mut i: usize = lo;
    while i < hi
        invariant
            lo <= i <= hi <= v@.len(),
            s@ == v@.subrange(lo as int, i as int),
        decreases hi - i,
    {
        push_char(&mut s, v[i]);
        proof {
            assert(v@.subrange(lo as int, i + 1 as int) =~= v@.subrange(lo as int, i as int).push(
                v@[i as int],
            ));
        }
        i = i + 1;
    }
    s
}

/// The character of one decimal digit.
pub open spec fn digit_char(d: int) -> char {
    if d == 0 {
        '0'
    } else if d == 1 {
        '1'
    } else if d == 2 {
        '2'
    } else if d == 3 {
        '3'
    } else if d == 4 {
        '4'
    } else if d == 5 {
        '5'
    } else if d == 6 {
        '6'
    } else if d == 7 {
        '7'
    } else if d == 8 {
        '8'
    } else {
        '9'
    }
}

/// The decimal rendering of a number, most significant digit first.
pub open spec fn dec_digits(n: nat) -> Seq<char>
    decreases n,
{
    if n < 10 {
        seq![digit_char(n as int)]
    } else {
        dec_digits(n / 10).push(digit_char((n % 10) as int))
    }
}

/// One exec digit character.
fn digit_char_exec(d: u64) -> (c: char)
    requires
        d < 10,
    ensures
        c == digit_char(d as int),
{
    match d {
        0 => '0',
        1 => '1',
        2 => '2',
        3 => '3',
        4 => '4',
        5 => '5',
        6 => '6',
        7 => '7',
        8 => '8',
        _ => '9',
    }
}

/// Renders a position counter in decimal.
pub fn usize_to_string(n: usize) -> (s: String)
    ensures
        s@ == dec_digits(n as nat),
{
    let mut rev: Vec<char> = Vec::new();
    let mut m: u64 = n as u64;
    if m == 0 {
        let mut s = String::new();
        push_char(&mut s, '0');
        proof {
            assert(s@ =~= dec_digits(0));
        }
        return s;
    }
    while m > 0
        invariant
            m <= n as u64,
            m > 0 ==> dec_digits(n as nat) =~= dec_digits(m as nat) + rev@.reverse(),
            m == 0 ==> dec_digits(n as nat) =~= rev@.reverse(),
        decreases m,
    {
        let d = m % 10;
        let ghost old_rev = rev@;
        let ghost old_m = m as nat;
        rev.push(digit_char_exec(d));
        m = m / 10;
        proof {
            assert(rev@ =~= old_rev.push(digit_char((old_m % 10) as int)));
            assert(rev@.reverse() =~= seq![digit_char((old_m % 10) as int)] + old_rev.reverse());
            if old_m >= 10 {
                assert(dec_digits(old_m) == dec_digits(old_m / 10).push(
                    digit_char((old_m % 10) as int),
                ));
                assert(dec_digits(old_m) + old_rev.reverse() =~= dec_digits(old_m / 10)
                    + rev@.reverse());
            } else {
                assert(dec_digits(old_m) =~= seq![digit_char(old_m as int)]);
                assert(dec_digits(old_m) + old_rev.reverse() =~= rev@.reverse());
            }
        }
    }
    let mut s = String::new();
    let ghost target = dec_digits(n as nat);
    while rev.len() > 0
        invariant
            target =~= s@ + rev@.reverse(),
        decreases rev.len(),
    {
        let ghost pre = rev@;
        let c = rev.pop().unwrap();
        push_char(&mut s, c);
        proof {
            assert(pre.reverse() =~= seq![pre.last()] + pre.drop_last().reverse());
            assert(s@ + rev@.reverse() =~= target);
        }
    }
    proof {
        assert(s@ =~= target);
    }
    s
}

} // verus!
