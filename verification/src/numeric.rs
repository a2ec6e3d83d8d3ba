use vstd::prelude::*;

verus! {

/// An ASCII decimal digit.
pub open spec fn is_digit_char(c: char) -> bool {
    48 <= c as u32 <= 57
}

pub open spec fn all_digits(s: Seq<char>) -> bool {
    forall|k: int| 0 <= k < s.len() ==> is_digit_char(#[trigger] s[k])
}

/// The value of a digit string, most significant digit first.
pub open spec fn digits_val(s: Seq<char>) -> int
    decreases s.len(),
{
    if s.len() == 0 {
        0
    } else {
        digits_val(s.drop_last()) * 10 + (s.last() as u32 - 48)
    }
}

/// What `str::parse::<i32>` accepts and returns: an optional sign, then
/// one or more ASCII digits, with the signed value in range for `i32`.
pub open spec fn spec_parse_i32(s: Seq<char>) -> Option<int> {
    if s.len() == 0 {
        None
    } else {
        let k: int = if s[0] == '+' || s[0] == '-' {
            1
        } else {
            0
        };
        let ds = s.subrange(k, s.len() as int);
        if ds.len() == 0 || !all_digits(ds) {
            None
        } else {
            let v: int = if s[0] == '-' {
                -digits_val(ds)
            } else {
                digits_val(ds)
            };
            if -2147483648 <= v <= 2147483647 {
                Some(v)
            } else {
                None
            }
        }
    }
}

pub proof fn lemma_digits_val_nonneg(s: Seq<char>)
    requires
        all_digits(s),
    ensures
        digits_val(s) >= 0,
    decreases s.len(),
{
    if s.len() > 0 {
        assert(all_digits(s.drop_last())) by {
            assert(forall|k: int|
                0 <= k < s.len() - 1 ==> #[trigger] s.drop_last()[k] == s[k]);
        }
        lemma_digits_val_nonneg(s.drop_last());
        assert(is_digit_char(s.last()));
    }
}

/// A digit string is worth at least any of its prefixes.
pub proof fn lemma_digits_val_prefix(s: Seq<char>, m: int)
    requires
        all_digits(s),
        0 <= m <= s.len(),
    ensures
        digits_val(s) >= digits_val(s.subrange(0, m)),
    decreases s.len() - m,
{
    if m == s.len() {
        assert(s.subrange(0, m) =~= s);
    } else {
        lemma_digits_val_prefix(s, m + 1);
        let t = s.subrange(0, m + 1);
        assert(all_digits(t)) by {
            assert(forall|k: int| 0 <= k < m + 1 ==> #[trigger] t[k] == s[k]);
        }
        assert(t.drop_last() =~= s.subrange(0, m));
        lemma_digits_val_nonneg(t.drop_last());
        assert(is_digit_char(t.last()));
        assert(digits_val(t) == digits_val(s.subrange(0, m)) * 10 + (t.last() as u32 - 48));
        assert(digits_val(t) >= digits_val(s.subrange(0, m)));
    }
}

/// Parse a decimal integer exactly as `str::parse::<i32>` would.
pub fn parse_i32(s: &str) -> (r: Option<i32>)
    ensures
        match r {
            Some(v) => spec_parse_i32(s@) == Some(v as int),
            None => spec_parse_i32(s@) is None,
        },
{
    let n = s.unicode_len();
    if n == 0 {
        return None;
    }
    let c0 = s.get_char(0);
    let neg = c0 == '-';
    let start: usize = if c0 == '+' || c0 == '-' {
        1
    } else {
        0
    };
    let ghost ds = s@.subrange(start as int, n as int);
    if start == n {
        return None;
    }
    let bound: u64 = if neg {
        2147483648
    } else {
        2147483647
    };
    let mut acc: u64 = 0;
    let mut i = start;
    while i < n
        invariant
            start <= i <= n,
            n == s@.len(),
            start < n,
            ds == s@.subrange(start as int, n as int),
            neg == (s@[0] == '-'),
            start as int == (if s@[0] == '+' || s@[0] == '-' { 1int } else { 0int }),
            bound == if neg { 2147483648u64 } else { 2147483647u64 },
            forall|k: int| 0 <= k < i - start ==> is_digit_char(#[trigger] ds[k]),
            acc == digits_val(ds.subrange(0, i - start)),
            acc <= bound,
        decreases n - i,
    {
        let c = s.get_char(i);
        let u = c as u32;
        if !(48 <= u && u <= 57) {
            proof {
                assert(ds[i - start] == s@[i as int]);
                assert(!is_digit_char(ds[i - start]));
            }
            return None;
        }
        let ghost prev = ds.subrange(0, i - start);
        acc = acc * 10 + ((u - 48) as u64);
        proof {
            let cur = ds.subrange(0, i + 1 - start);
            assert(cur.drop_last() =~= prev);
            assert(cur.last() == ds[i - start]);
            assert(ds[i - start] == s@[i as int]);
            assert(digits_val(cur) == digits_val(prev) * 10 + (c as u32 - 48));
        }
        if acc > bound {
            proof {
                let m = i + 1 - start;
                if all_digits(ds) {
                    lemma_digits_val_prefix(ds, m);
                    assert(digits_val(ds) >= acc > bound);
                }
            }
            return None;
        }
        i = i + 1;
    }
    proof {
        assert(ds.subrange(0, n - start) =~= ds);
        assert(all_digits(ds));
    }
    if neg {
        let v: i64 = -(acc as i64);
        proof {
            assert(-2147483648 <= v <= 2147483647);
        }
        Some(v as i32)
    } else {
        Some(acc as i32)
    }
}

} // verus!
