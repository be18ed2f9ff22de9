use vstd::prelude::*;

verus! {

/// Is `c` a decimal digit?
pub open spec fn is_digit(c: char) -> bool {
    '0' as int <= c as int <= '9' as int
}

/// Is `s` a non-empty string of decimal digits?
pub open spec fn is_digits(s: Seq<char>) -> bool {
    s.len() > 0 && forall|i: int| 0 <= i < s.len() ==> is_digit(#[trigger] s[i])
}

/// The value of the digit string `s`, most significant digit first.
pub open spec fn digits_value(s: Seq<char>) -> int
    decreases s.len(),
{
    if s.len() == 0 {
        0
    } else {
        digits_value(s.drop_last()) * 10 + (s.last() as int - '0' as int)
    }
}

/// How a `since` filter string is read: a non-empty decimal string whose
/// value fits in `u64` parses to that value; anything else is malformed.
pub open spec fn spec_parse_timestamp(s: Seq<char>) -> Option<u64> {
    if is_digits(s) && digits_value(s) <= u64::MAX {
        Some(digits_value(s) as u64)
    } else {
        None
    }
}

proof fn lemma_digits_nonneg(s: Seq<char>)
    requires
        forall|i: int| 0 <= i < s.len() ==> is_digit(#[trigger] s[i]),
    ensures
        digits_value(s) >= 0,
    decreases s.len(),
{
    if s.len() > 0 {
        lemma_digits_nonneg(s.drop_last());
    }
}

proof fn lemma_digits_prefix_le(s: Seq<char>, i: int)
    requires
        0 <= i <= s.len(),
        forall|k: int| 0 <= k < s.len() ==> is_digit(#[trigger] s[k]),
    ensures
        digits_value(s.take(i)) <= digits_value(s),
    decreases s.len(),
{
    if i == s.len() {
        assert(s.take(i) =~= s);
    } else {
        let head = s.drop_last();
        assert(forall|k: int| 0 <= k < head.len() ==> is_digit(#[trigger] head[k]));
        assert(s.take(i) =~= head.take(i));
        lemma_digits_prefix_le(head, i);
        lemma_digits_nonneg(head);
    }
}

/// Parse a decimal timestamp; `None` when `s` is not a non-empty digit
/// string whose value fits in `u64`.
pub fn parse_timestamp(s: &str) -> (r: Option<u64>)
    ensures
        r == spec_parse_timestamp(s@),
{
    let n = s.unicode_len();
    if n == 0 {
        return None;
    }
    let mut acc: u64 = 0;
    let mut i: usize = 0;
    while i < n
        invariant
            0 <= i <= n,
            n as nat == s@.len(),
            forall|k: int| 0 <= k < i ==> is_digit(#[trigger] s@[k]),
            acc as int == digits_value(s@.take(i as int)),
        decreases n - i,
    {
        let c = s.get_char(i);
        let cv = c as u32;
        if cv < 48 || cv > 57 {
            proof {
                assert(!is_digit(s@[i as int]));
            }
            return None;
        }
        let d: u64 = (cv - 48) as u64;
        let wide: u128 = (acc as u128) * 10 + (d as u128);
        proof {
            assert(s@.take(i as int + 1).drop_last() =~= s@.take(i as int));
            assert(s@.take(i as int + 1).last() == s@[i as int]);
            assert(digits_value(s@.take(i as int + 1)) == acc * 10 + d);
        }
        if wide > u64::MAX as u128 {
            proof {
                if is_digits(s@) {
                    lemma_digits_prefix_le(s@, i as int + 1);
                }
            }
            return None;
        }
        acc = wide as u64;
        i = i + 1;
    }
    proof {
        assert(s@.take(n as int) =~= s@);
    }
    Some(acc)
}

} // verus!
