use vstd::prelude::*;

use crate::decoder::{all_digits, digits_value, int_literal_value, is_int_literal, is_uint_literal,
    parses_as_i32, parses_as_usize, uint_literal_value};

verus! {

/// A run of digit bytes has a non-negative value.
proof fn lemma_digits_nonneg(s: Seq<u8>)
    requires
        all_digits(s),
    ensures
        digits_value(s) >= 0,
    decreases s.len(),
{
    if s.len() > 0 {
        assert(all_digits(s.drop_last()));
        lemma_digits_nonneg(s.drop_last());
    }
}

/// Reading one more digit multiplies the prefix value by ten and adds it.
proof fn lemma_digits_step(s: Seq<u8>, j: int)
    requires
        0 <= j < s.len(),
    ensures
        digits_value(s.take(j + 1)) == digits_value(s.take(j)) * 10 + (s[j] - 48),
{
    assert(s.take(j + 1).drop_last() =~= s.take(j));
    assert(s.take(j + 1).last() == s[j]);
}

/// A prefix of a digit run never exceeds the whole run's value.
proof fn lemma_digits_prefix_le(s: Seq<u8>, j: int)
    requires
        all_digits(s),
        0 <= j <= s.len(),
    ensures
        digits_value(s.take(j)) <= digits_value(s),
    decreases s.len() - j,
{
    if j == s.len() {
        assert(s.take(j) =~= s);
    } else {
        assert(all_digits(s.take(j)));
        lemma_digits_nonneg(s.take(j));
        lemma_digits_step(s, j);
        lemma_digits_prefix_le(s, j + 1);
    }
}

/// The digit run of a literal: everything past a leading sign.
spec fn digit_run_start(s: Seq<u8>, signed: bool) -> int {
    if s.len() > 0 && (s[0] == 43 || (signed && s[0] == 45)) {
        1
    } else {
        0
    }
}

/// What `parse::<usize>` returns on these bytes: the value when they are
/// an unsigned decimal literal in range, nothing otherwise.
pub(crate) fn parse_usize_bytes(v: &[u8]) -> (r: Option<usize>)
    ensures
        r is Some <==> parses_as_usize(v@),
        r matches Some(n) ==> n as int == uint_literal_value(v@),
{
    let n = v.len();
    let mut idx: usize = 0;
    if n > 0 && v[0] == 43 {
        idx = 1;
    }
    let ghost start = idx as int;
    if idx >= n {
        return None;
    }
    let ghost run = v@.skip(start);
    let mut acc: usize = 0;
    while idx < n
        invariant
            start <= idx <= n,
            n == v@.len(),
            run == v@.skip(start),
            0 <= start <= 1,
            start == digit_run_start(v@, false),
            run.len() == n - start,
            all_digits(run.take(idx - start)),
            acc as int == digits_value(run.take(idx - start)),
        decreases n - idx,
    {
        let b = v[idx];
        if !(48 <= b && b <= 57) {
            assert(run[idx - start] == b);
            assert(!all_digits(run));
            assert(v@.skip(0) =~= v@);
            assert(!parses_as_usize(v@));
            return None;
        }
        let d = (b - 48) as usize;
        proof {
            assert(run.take(idx - start + 1).drop_last() =~= run.take(idx - start));
            assert(run.take(idx - start + 1).last() == b);
        }
        if acc > (usize::MAX - d) / 10 {
            proof {
                assert(v@.skip(0) =~= v@);
                let m = usize::MAX as int;
                assert((m - d) / 10 * 10 + (m - d) % 10 == m - d);
                assert(acc as int * 10 + d > m);
                assert(digits_value(run.take(idx - start + 1)) > m);
                if all_digits(run) {
                    lemma_digits_prefix_le(run, idx - start + 1);
                    assert(digits_value(run) > m);
                    assert(uint_literal_value(v@) > m);
                }
            }
            return None;
        }
        proof {
            let m = usize::MAX as int;
            assert((m - d) / 10 * 10 + (m - d) % 10 == m - d);
            assert(acc as int * 10 + d <= m);
        }
        acc = acc * 10 + d;
        idx = idx + 1;
    }
    proof {
        assert(v@.skip(0) =~= v@);
        assert(run.take(idx - start) =~= run);
        assert(is_uint_literal(v@));
        assert(uint_literal_value(v@) == digits_value(run));
    }
    Some(acc)
}

/// What `parse::<i32>` returns on these bytes: the value when they are a
/// signed decimal literal in range, nothing otherwise.
pub(crate) fn parse_i32_bytes(v: &[u8]) -> (r: Option<i32>)
    ensures
        r is Some <==> parses_as_i32(v@),
        r matches Some(n) ==> n as int == int_literal_value(v@),
{
    let n = v.len();
    let mut idx: usize = 0;
    let mut negative = false;
    if n > 0 && v[0] == 43 {
        idx = 1;
    } else if n > 0 && v[0] == 45 {
        idx = 1;
        negative = true;
    }
    let ghost start = idx as int;
    if idx >= n {
        return None;
    }
    let ghost run = v@.skip(start);
    let bound: u32 = 2147483648;
    let mut acc: u32 = 0;
    while idx < n
        invariant
            start <= idx <= n,
            n == v@.len(),
            run == v@.skip(start),
            0 <= start <= 1,
            start == digit_run_start(v@, true),
            negative == (v@.len() > 0 && v@[0] == 45),
            run.len() == n - start,
            all_digits(run.take(idx - start)),
            acc as int == digits_value(run.take(idx - start)),
            acc <= 2147483648,
            bound == 2147483648u32,
        decreases n - idx,
    {
        let b = v[idx];
        if !(48 <= b && b <= 57) {
            assert(run[idx - start] == b);
            assert(!all_digits(run));
            assert(v@.skip(0) =~= v@);
            assert(!parses_as_i32(v@));
            return None;
        }
        let d = (b - 48) as u32;
        proof {
            assert(run.take(idx - start + 1).drop_last() =~= run.take(idx - start));
            assert(run.take(idx - start + 1).last() == b);
        }
        if acc > (bound - d) / 10 {
            proof {
                assert(v@.skip(0) =~= v@);
                let m = 2147483648int;
                assert((m - d) / 10 * 10 + (m - d) % 10 == m - d);
                assert(acc as int * 10 + d > m);
                assert(digits_value(run.take(idx - start + 1)) > m);
                if all_digits(run) {
                    lemma_digits_prefix_le(run, idx - start + 1);
                    assert(digits_value(run) > m);
                    assert(!parses_as_i32(v@));
                }
            }
            return None;
        }
        proof {
            let m = 2147483648int;
            assert((m - d) / 10 * 10 + (m - d) % 10 == m - d);
            assert(acc as int * 10 + d <= m);
        }
        acc = acc * 10 + d;
        idx = idx + 1;
    }
    proof {
        assert(v@.skip(0) =~= v@);
        assert(run.take(idx - start) =~= run);
        assert(is_int_literal(v@));
        if negative {
            assert(int_literal_value(v@) == -digits_value(run));
        } else {
            assert(int_literal_value(v@) == digits_value(run));
        }
    }
    if negative {
        if acc == 2147483648 {
            Some(i32::MIN)
        } else {
            Some(-(acc as i32))
        }
    } else {
        if acc == 2147483648 {
            assert(!parses_as_i32(v@));
            None
        } else {
            Some(acc as i32)
        }
    }
}

} // verus!
