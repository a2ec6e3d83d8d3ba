use vstd::prelude::*;

verus! {

// ---------------------------------------------------------------------------
// First and last positions satisfying a predicate
// ---------------------------------------------------------------------------

/// Index of the first element of `s` satisfying `p`, or `s.len()` when none
/// does.
pub open spec fn first_where<A>(s: Seq<A>, p: spec_fn(A) -> bool) -> int
    decreases s.len(),
{
    if s.len() == 0 {
        0
    } else if p(s[0]) {
        0
    } else {
        1 + first_where(s.subrange(1, s.len() as int), p)
    }
}

/// Index of the last element of `s` satisfying `p`, or `-1` when none does.
pub open spec fn last_where<A>(s: Seq<A>, p: spec_fn(A) -> bool) -> int
    decreases s.len(),
{
    if s.len() == 0 {
        -1
    } else if p(s[s.len() - 1]) {
        s.len() - 1
    } else {
        last_where(s.drop_last(), p)
    }
}

pub proof fn lemma_first_where<A>(s: Seq<A>, p: spec_fn(A) -> bool)
    ensures
        0 <= first_where(s, p) <= s.len(),
        forall|k: int| 0 <= k < first_where(s, p) ==> !p(#[trigger] s[k]),
        first_where(s, p) < s.len() ==> p(s[first_where(s, p)]),
    decreases s.len(),
{
    if s.len() == 0 {
    } else if p(s[0]) {
    } else {
        let t = s.subrange(1, s.len() as int);
        lemma_first_where(t, p);
        assert forall|k: int| 0 <= k < first_where(s, p) implies !p(#[trigger] s[k]) by {
            if k > 0 {
                assert(s[k] == t[k - 1]);
            }
        }
        if first_where(s, p) < s.len() {
            assert(s[first_where(s, p)] == t[first_where(s, p) - 1]);
        }
    }
}

/// An index with the first-occurrence properties is the first occurrence.
pub proof fn lemma_first_where_is<A>(s: Seq<A>, p: spec_fn(A) -> bool, i: int)
    requires
        0 <= i <= s.len(),
        forall|k: int| 0 <= k < i ==> !p(#[trigger] s[k]),
        i < s.len() ==> p(s[i]),
    ensures
        first_where(s, p) == i,
{
    lemma_first_where(s, p);
    let f = first_where(s, p);
    if f < i {
        assert(p(s[f]));
        assert(!p(s[f]));
    } else if i < f {
        assert(p(s[i]));
        assert(!p(s[i]));
    }
}

pub proof fn lemma_last_where<A>(s: Seq<A>, p: spec_fn(A) -> bool)
    ensures
        -1 <= last_where(s, p) < s.len(),
        last_where(s, p) >= 0 ==> p(s[last_where(s, p)]),
        forall|k: int| last_where(s, p) < k < s.len() ==> !p(#[trigger] s[k]),
    decreases s.len(),
{
    if s.len() == 0 {
    } else if p(s[s.len() - 1]) {
    } else {
        let t = s.drop_last();
        lemma_last_where(t, p);
        assert forall|k: int| last_where(s, p) < k < s.len() implies !p(#[trigger] s[k]) by {
            if k < s.len() - 1 {
                assert(s[k] == t[k]);
            }
        }
        if last_where(s, p) >= 0 {
            assert(s[last_where(s, p)] == t[last_where(s, p)]);
        }
    }
}

/// An index with the last-occurrence properties is the last occurrence;
/// `-1` with no occurrence after it means no occurrence at all.
pub proof fn lemma_last_where_is<A>(s: Seq<A>, p: spec_fn(A) -> bool, i: int)
    requires
        -1 <= i < s.len(),
        i >= 0 ==> p(s[i]),
        forall|k: int| i < k < s.len() ==> !p(#[trigger] s[k]),
    ensures
        last_where(s, p) == i,
{
    lemma_last_where(s, p);
    let l = last_where(s, p);
    if l < i {
        assert(p(s[i]));
        assert(!p(s[i]));
    } else if i < l {
        assert(p(s[l]));
        assert(!p(s[l]));
    }
}

// ---------------------------------------------------------------------------
// Character classes
// ---------------------------------------------------------------------------

/// The Unicode whitespace characters, the set `str::trim` strips.
pub open spec fn is_ws_char(c: char) -> bool {
    let u = c as u32;
    u == 0x09 || u == 0x0A || u == 0x0B || u == 0x0C || u == 0x0D || u == 0x20 || u == 0x85
        || u == 0xA0 || u == 0x1680 || (0x2000 <= u && u <= 0x200A) || u == 0x2028 || u == 0x2029
        || u == 0x202F || u == 0x205F || u == 0x3000
}

/// Decide `is_ws_char`.
pub fn is_ws(c: char) -> (r: bool)
    ensures
        r == is_ws_char(c),
{
    let u = c as u32;
    u == 0x09 || u == 0x0A || u == 0x0B || u == 0x0C || u == 0x0D || u == 0x20 || u == 0x85
        || u == 0xA0 || u == 0x1680 || (0x2000 <= u && u <= 0x200A) || u == 0x2028 || u == 0x2029
        || u == 0x202F || u == 0x205F || u == 0x3000
}

/// Predicate form of a fixed-character test, shared by specification
/// functions and proofs so that every use names the same function value.
pub open spec fn char_is(c: char) -> spec_fn(char) -> bool {
    |x: char| x == c
}

pub open spec fn ws_pred() -> spec_fn(char) -> bool {
    |x: char| is_ws_char(x)
}

pub open spec fn non_ws_pred() -> spec_fn(char) -> bool {
    |x: char| !is_ws_char(x)
}

/// `s` is empty after trimming: every character is whitespace.
pub open spec fn trim_empty(s: Seq<char>) -> bool {
    forall|k: int| 0 <= k < s.len() ==> is_ws_char(#[trigger] s[k])
}

/// What `str::trim` leaves of `s`: the span from the first non-whitespace
/// character through the last one.
pub open spec fn spec_trim(s: Seq<char>) -> Seq<char> {
    let a = first_where(s, non_ws_pred());
    let b = last_where(s, non_ws_pred());
    if 0 <= a <= b < s.len() {
        s.subrange(a, b + 1)
    } else {
        Seq::empty()
    }
}

// ---------------------------------------------------------------------------
// Splitting into lines
// ---------------------------------------------------------------------------

/// Strip one carriage return from the end of a newline-terminated segment.
pub open spec fn chomp_cr(s: Seq<char>) -> Seq<char> {
    if s.len() > 0 && s[s.len() - 1] == '\r' {
        s.drop_last()
    } else {
        s
    }
}

/// The lines of `s`, as `str::lines` yields them: segments split at `'\n'`,
/// each with one preceding `'\r'` stripped, and no final empty segment
/// after a terminating newline.
pub open spec fn spec_lines(s: Seq<char>) -> Seq<Seq<char>>
    decreases s.len(),
{
    if s.len() == 0 {
        Seq::empty()
    } else {
        let i = first_where(s, char_is('\n'));
        if 0 <= i < s.len() {
            seq![chomp_cr(s.subrange(0, i))] + spec_lines(s.subrange(i + 1, s.len() as int))
        } else {
            seq![s]
        }
    }
}

/// The model of a split result, element by element.
pub open spec fn lines_model(v: Seq<String>) -> Seq<Seq<char>> {
    v.map_values(|l: String| l@)
}

pub proof fn lemma_lines_model_push(v: Seq<String>, x: String)
    ensures
        lines_model(v.push(x)) == lines_model(v).push(x@),
{
    assert(lines_model(v.push(x)) =~= lines_model(v).push(x@));
}

// ---------------------------------------------------------------------------
// Executable scanners
// ---------------------------------------------------------------------------

/// Position of the first occurrence of `c` at or after `from`, or the
/// length of `s` when there is none.
pub fn find_char_from(s: &str, from: usize, c: char) -> (r: usize)
    requires
        from <= s@.len(),
    ensures
        from <= r <= s@.len(),
        forall|k: int| from <= k < r ==> s@[k] != c,
        r < s@.len() ==> s@[r as int] == c,
{
    let n = s.unicode_len();
    let mut i = from;
    while i < n
        invariant
            from <= i <= n,
            n == s@.len(),
            forall|k: int| from <= k < i ==> s@[k] != c,
        decreases n - i,
    {
        if s.get_char(i) == c {
            return i;
        }
        i = i + 1;
    }
    i
}

/// Position of the last occurrence of `c`, if any.
pub fn rfind_char(s: &str, c: char) -> (r: Option<usize>)
    ensures
        match r {
            Some(j) => j < s@.len() && s@[j as int] == c && forall|k: int|
                j < k < s@.len() ==> s@[k] != c,
            None => forall|k: int| 0 <= k < s@.len() ==> s@[k] != c,
        },
{
    let n = s.unicode_len();
    let mut i = n;
    while i > 0
        invariant
            i <= n,
            n == s@.len(),
            forall|k: int| i <= k < n ==> s@[k] != c,
        decreases i,
    {
        i = i - 1;
        if s.get_char(i) == c {
            return Some(i);
        }
    }
    None
}

/// Position of the first non-whitespace character at or after `from`, or
/// the length of `s` when all the rest is whitespace.
pub fn find_non_ws_from(s: &str, from: usize) -> (r: usize)
    requires
        from <= s@.len(),
    ensures
        from <= r <= s@.len(),
        forall|k: int| from <= k < r ==> is_ws_char(#[trigger] s@[k]),
        r < s@.len() ==> !is_ws_char(s@[r as int]),
{
    let n = s.unicode_len();
    let mut i = from;
    while i < n
        invariant
            from <= i <= n,
            n == s@.len(),
            forall|k: int| from <= k < i ==> is_ws_char(#[trigger] s@[k]),
        decreases n - i,
    {
        if !is_ws(s.get_char(i)) {
            return i;
        }
        i = i + 1;
    }
    i
}

/// Position of the first whitespace character at or after `from`, or the
/// length of `s` when there is none.
pub fn find_ws_from(s: &str, from: usize) -> (r: usize)
    requires
        from <= s@.len(),
    ensures
        from <= r <= s@.len(),
        forall|k: int| from <= k < r ==> !is_ws_char(#[trigger] s@[k]),
        r < s@.len() ==> is_ws_char(s@[r as int]),
{
    let n = s.unicode_len();
    let mut i = from;
    while i < n
        invariant
            from <= i <= n,
            n == s@.len(),
            forall|k: int| from <= k < i ==> !is_ws_char(#[trigger] s@[k]),
        decreases n - i,
    {
        if is_ws(s.get_char(i)) {
            return i;
        }
        i = i + 1;
    }
    i
}

/// Position of the last non-whitespace character, if any.
pub fn rfind_non_ws(s: &str) -> (r: Option<usize>)
    ensures
        match r {
            Some(j) => j < s@.len() && !is_ws_char(s@[j as int]) && forall|k: int|
                j < k < s@.len() ==> is_ws_char(#[trigger] s@[k]),
            None => trim_empty(s@),
        },
{
    let n = s.unicode_len();
    let mut i = n;
    while i > 0
        invariant
            i <= n,
            n == s@.len(),
            forall|k: int| i <= k < n ==> is_ws_char(#[trigger] s@[k]),
        decreases i,
    {
        i = i - 1;
        if !is_ws(s.get_char(i)) {
            return Some(i);
        }
    }
    None
}

/// Whether `s` is empty after trimming.
pub fn is_blank(s: &str) -> (r: bool)
    ensures
        r == trim_empty(s@),
{
    let n = s.unicode_len();
    let i = find_non_ws_from(s, 0);
    if i == n {
        true
    } else {
        assert(!is_ws_char(s@[i as int]));
        false
    }
}

/// Trim leading and trailing whitespace, as `str::trim` does.
pub fn trim_str<'a>(s: &'a str) -> (r: &'a str)
    ensures
        r@ == spec_trim(s@),
{
    let n = s.unicode_len();
    let a = find_non_ws_from(s, 0);
    if a == n {
        proof {
            lemma_first_where_is(s@, non_ws_pred(), a as int);
            lemma_last_where(s@, non_ws_pred());
            let b = last_where(s@, non_ws_pred());
            if b >= 0 {
                assert(!is_ws_char(s@[b]));
                assert(is_ws_char(s@[b]));
            }
        }
        let r = s.substring_char(0, 0);
        assert(r@ =~= spec_trim(s@));
        r
    } else {
        let b = match rfind_non_ws(s) {
            Some(b) => b,
            None => {
                // contradicts a < n with s@[a] not whitespace
                assert(is_ws_char(s@[a as int]));
                assert(false);
                0
            },
        };
        proof {
            lemma_first_where_is(s@, non_ws_pred(), a as int);
            lemma_last_where_is(s@, non_ws_pred(), b as int);
        }
        assert(a <= b) by {
            if b < a {
                assert(is_ws_char(s@[b as int]));
            }
        }
        let r = s.substring_char(a, b + 1);
        assert(r@ =~= spec_trim(s@));
        r
    }
}

/// Split `s` into its lines, as `str::lines` does.
pub fn split_lines(s: &str) -> (r: Vec<String>)
    ensures
        lines_model(r@) == spec_lines(s@),
{
    let n = s.unicode_len();
    let mut out: Vec<String> = Vec::new();
    let mut p: usize = 0;
    proof {
        assert(s@.subrange(0, n as int) =~= s@);
        assert(lines_model(out@) =~= Seq::<Seq<char>>::empty());
    }
    while p < n
        invariant
            p <= n,
            n == s@.len(),
            spec_lines(s@) == lines_model(out@) + spec_lines(s@.subrange(p as int, n as int)),
        decreases n - p,
    {
        let ghost prev = out@;
        let ghost t = s@.subrange(p as int, n as int);
        let e = find_char_from(s, p, '\n');
        if e < n {
            let line_end = if e > p && s.get_char(e - 1) == '\r' {
                e - 1
            } else {
                e
            };
            let line = s.substring_char(p, line_end).to_owned();
            proof {
                assert forall|k: int| 0 <= k < e - p implies !(char_is('\n')(#[trigger] t[k])) by {
                    assert(t[k] == s@[p + k]);
                }
                assert(char_is('\n')(t[e - p]));
                lemma_first_where_is(t, char_is('\n'), e - p);
                assert(t.subrange(0, e - p) =~= s@.subrange(p as int, e as int));
                assert(t.subrange(e - p + 1, t.len() as int) =~= s@.subrange(
                    e + 1,
                    n as int,
                ));
                assert(chomp_cr(s@.subrange(p as int, e as int)) =~= line@);
                assert(spec_lines(t) == seq![line@] + spec_lines(s@.subrange(e + 1, n as int)));
            }
            out.push(line);
            proof {
                assert(lines_model(out@) =~= lines_model(prev).push(out@.last()@));
                assert(lines_model(out@) + spec_lines(s@.subrange(e + 1, n as int)) =~= lines_model(
                    prev,
                ) + spec_lines(t));
            }
            p = e + 1;
        } else {
            let line = s.substring_char(p, n).to_owned();
            proof {
                assert forall|k: int| 0 <= k < t.len() implies !(char_is('\n')(
                    #[trigger] t[k],
                )) by {
                    assert(t[k] == s@[p + k]);
                }
                lemma_first_where_is(t, char_is('\n'), t.len() as int);
                assert(t.len() > 0);
                assert(spec_lines(t) == seq![t]);
                assert(line@ =~= t);
            }
            out.push(line);
            proof {
                assert(lines_model(out@) =~= lines_model(prev).push(out@.last()@));
                assert(s@.subrange(n as int, n as int) =~= Seq::<char>::empty());
                assert(lines_model(out@) + spec_lines(s@.subrange(n as int, n as int))
                    =~= lines_model(prev) + spec_lines(t));
            }
            p = n;
        }
    }
    proof {
        assert(s@.subrange(n as int, n as int) =~= Seq::<char>::empty());
        assert(lines_model(out@) + spec_lines(s@.subrange(p as int, n as int)) =~= lines_model(
            out@,
        ));
    }
    out
}

} // verus!
