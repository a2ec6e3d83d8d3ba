use vstd::prelude::*;
use crate::numeric::{parse_i32, spec_parse_i32};
use crate::record::{lemma_records_model_push, records_model, NetworkRecord, RecordModel};
use crate::text::{
    char_is, find_char_from, first_where, lemma_first_where_is, lines_model, spec_lines,
    spec_trim, split_lines, trim_str,
};

verus! {

// ---------------------------------------------------------------------------
// Substring containment
// ---------------------------------------------------------------------------

/// `sub` occurs in `s` starting at index `i`.
pub open spec fn contains_at(s: Seq<char>, sub: Seq<char>, i: int) -> bool {
    0 <= i && i + sub.len() <= s.len() && s.subrange(i, i + sub.len() as int) == sub
}

/// `sub` occurs somewhere in `s`.
pub open spec fn contains_sub(s: Seq<char>, sub: Seq<char>) -> bool {
    exists|i: int| contains_at(s, sub, i)
}

/// Whether `sub` occurs in `s` starting at index `i`.
fn match_at(s: &str, sub: &str, i: usize) -> (r: bool)
    requires
        i + sub@.len() <= s@.len(),
    ensures
        r == contains_at(s@, sub@, i as int),
{
    let n = s.unicode_len();
    let m = sub.unicode_len();
    let mut j: usize = 0;
    while j < m
        invariant
            j <= m,
            n == s@.len(),
            m == sub@.len(),
            i + m <= n,
            forall|k: int| 0 <= k < j ==> s@[i + k] == sub@[k],
        decreases m - j,
    {
        if s.get_char(i + j) != sub.get_char(j) {
            proof {
                if contains_at(s@, sub@, i as int) {
                    assert(s@.subrange(i as int, i + m as int)[j as int] == sub@[j as int]);
                }
            }
            return false;
        }
        j = j + 1;
    }
    proof {
        assert(s@.subrange(i as int, i + m as int) =~= sub@);
    }
    true
}

/// Whether `sub` occurs anywhere in `s`, as `str::contains` decides it.
pub fn contains_str(s: &str, sub: &str) -> (r: bool)
    ensures
        r == contains_sub(s@, sub@),
{
    let n = s.unicode_len();
    let m = sub.unicode_len();
    if m > n {
        proof {
            assert forall|i: int| !(#[trigger] contains_at(s@, sub@, i)) by {}
        }
        return false;
    }
    if m == 0 {
        proof {
            assert(s@.subrange(0, 0) =~= sub@);
            assert(contains_at(s@, sub@, 0));
        }
        return true;
    }
    let mut i: usize = 0;
    while i <= n - m
        invariant
            i <= n - m + 1,
            1 <= m <= n,
            n == s@.len(),
            m == sub@.len(),
            forall|k: int| 0 <= k < i ==> !(#[trigger] contains_at(s@, sub@, k)),
        decreases n - i,
    {
        if match_at(s, sub, i) {
            proof {
                assert(contains_at(s@, sub@, i as int));
            }
            return true;
        }
        i = i + 1;
    }
    proof {
        assert forall|k: int| !(#[trigger] contains_at(s@, sub@, k)) by {
            if 0 <= k && k + sub@.len() <= s@.len() {
                assert(k < i);
            }
        }
    }
    false
}

// ---------------------------------------------------------------------------
// Marker lines and colon fields
// ---------------------------------------------------------------------------

/// A line that opens a network block: it carries the SSID marker and is
/// not itself a BSSID line (whose marker contains the SSID marker as a
/// substring).
pub open spec fn is_ssid_marker(line: Seq<char>) -> bool {
    contains_sub(line, "SSID"@) && !contains_sub(line, "BSSID"@)
}

pub open spec fn marker_pred() -> spec_fn(Seq<char>) -> bool {
    |l: Seq<char>| is_ssid_marker(l)
}

pub open spec fn bssid_line_pred() -> spec_fn(Seq<char>) -> bool {
    |l: Seq<char>| contains_sub(l, "BSSID"@)
}

pub open spec fn signal_line_pred() -> spec_fn(Seq<char>) -> bool {
    |l: Seq<char>| contains_sub(l, "Signal"@)
}

/// Whether `line` opens a network block.
pub fn is_marker_line(line: &str) -> (r: bool)
    ensures
        r == is_ssid_marker(line@),
{
    contains_str(line, "SSID") && !contains_str(line, "BSSID")
}

/// The text between the first and second colon of `line` (through the end
/// when there is no second colon), or nothing when the line has no colon:
/// the second colon-separated field, which block-oriented output puts its
/// values in.
pub open spec fn spec_colon_field1(line: Seq<char>) -> Option<Seq<char>> {
    let i = first_where(line, char_is(':'));
    if !(0 <= i < line.len()) {
        None
    } else {
        let rest = line.subrange(i + 1, line.len() as int);
        let j = first_where(rest, char_is(':'));
        if 0 <= j <= rest.len() {
            Some(rest.subrange(0, j))
        } else {
            None
        }
    }
}

/// Extract the second colon-separated field of `line`.
fn colon_field1<'a>(line: &'a str) -> (r: Option<&'a str>)
    ensures
        match r {
            Some(f) => spec_colon_field1(line@) == Some(f@),
            None => spec_colon_field1(line@) is None,
        },
{
    let n = line.unicode_len();
    let i = find_char_from(line, 0, ':');
    proof {
        lemma_first_where_is(line@, char_is(':'), i as int);
    }
    if i == n {
        return None;
    }
    let j = find_char_from(line, i + 1, ':');
    proof {
        let rest = line@.subrange(i + 1, n as int);
        assert forall|k: int| 0 <= k < j - i - 1 implies !(char_is(':')(#[trigger] rest[k])) by {
            assert(rest[k] == line@[i + 1 + k]);
        }
        if j < n {
            assert(rest[j - i - 1] == line@[j as int]);
        }
        lemma_first_where_is(rest, char_is(':'), j - i - 1);
        assert(rest.subrange(0, j - i - 1) =~= line@.subrange(i + 1, j as int));
    }
    Some(line.substring_char(i + 1, j))
}

// ---------------------------------------------------------------------------
// Blocks
// ---------------------------------------------------------------------------

/// One network block: the marker line, then every line up to the next
/// marker. The name is the marker line's second colon-separated field;
/// the hardware address and the signal come from the first line in the
/// block carrying the BSSID marker and the first carrying the signal
/// marker, each read from its second colon-separated field, trimmed, and
/// for the signal parsed as an integer. A block missing any of the three,
/// or whose signal field does not parse, yields no record.
pub open spec fn spec_parse_block(block: Seq<Seq<char>>) -> Option<RecordModel> {
    if block.len() == 0 {
        None
    } else {
        match spec_colon_field1(block[0]) {
            None => None,
            Some(name_raw) => {
                let bi = first_where(block, bssid_line_pred());
                let si = first_where(block, signal_line_pred());
                if !(0 <= bi < block.len()) || !(0 <= si < block.len()) {
                    None
                } else {
                    match spec_colon_field1(block[bi]) {
                        None => None,
                        Some(addr_raw) => match spec_colon_field1(block[si]) {
                            None => None,
                            Some(sig_raw) => match spec_parse_i32(spec_trim(sig_raw)) {
                                None => None,
                                Some(v) => Some(
                                    RecordModel {
                                        name: spec_trim(name_raw),
                                        hardware_address: spec_trim(addr_raw),
                                        signal_percent: v,
                                    },
                                ),
                            },
                        },
                    }
                }
            },
        }
    }
}

/// The records of block-oriented scan output: the lines split into blocks
/// at the marker lines, one candidate record per block, in input order.
/// Lines before the first marker belong to no block.
pub open spec fn spec_parse_blocks(lines: Seq<Seq<char>>) -> Seq<RecordModel>
    decreases lines.len(),
{
    if lines.len() == 0 {
        Seq::empty()
    } else if !is_ssid_marker(lines[0]) {
        spec_parse_blocks(lines.subrange(1, lines.len() as int))
    } else {
        let e = 1 + first_where(lines.subrange(1, lines.len() as int), marker_pred());
        if 1 <= e <= lines.len() {
            let rest = spec_parse_blocks(lines.subrange(e, lines.len() as int));
            match spec_parse_block(lines.subrange(0, e)) {
                Some(r) => seq![r] + rest,
                None => rest,
            }
        } else {
            Seq::empty()
        }
    }
}

/// Index of the first line at or after `from` containing `sub`, or `hi`
/// when none does before `hi`.
fn find_containing_from(lines: &Vec<String>, from: usize, hi: usize, sub: &str) -> (r: usize)
    requires
        from <= hi <= lines@.len(),
    ensures
        from <= r <= hi,
        forall|k: int| from <= k < r ==> !contains_sub(#[trigger] lines@[k]@, sub@),
        r < hi ==> contains_sub(lines@[r as int]@, sub@),
{
    let mut q = from;
    while q < hi
        invariant
            from <= q <= hi,
            hi <= lines@.len(),
            forall|k: int| from <= k < q ==> !contains_sub(#[trigger] lines@[k]@, sub@),
        decreases hi - q,
    {
        if contains_str(lines[q].as_str(), sub) {
            return q;
        }
        q = q + 1;
    }
    q
}

/// Index of the first marker line at or after `from`, or the line count
/// when none remains.
fn find_marker_from(lines: &Vec<String>, from: usize) -> (r: usize)
    requires
        from <= lines@.len(),
    ensures
        from <= r <= lines@.len(),
        forall|k: int| from <= k < r ==> !is_ssid_marker(#[trigger] lines@[k]@),
        r < lines@.len() ==> is_ssid_marker(lines@[r as int]@),
{
    let mut q = from;
    while q < lines.len()
        invariant
            from <= q <= lines@.len(),
            forall|k: int| from <= k < q ==> !is_ssid_marker(#[trigger] lines@[k]@),
        decreases lines@.len() - q,
    {
        if is_marker_line(lines[q].as_str()) {
            return q;
        }
        q = q + 1;
    }
    q
}

/// Parse the block `lines[p..e]`, whose first line is its marker line.
fn parse_block(lines: &Vec<String>, p: usize, e: usize) -> (r: Option<NetworkRecord>)
    requires
        p < e <= lines@.len(),
    ensures
        ({
            let block = lines_model(lines@).subrange(p as int, e as int);
            match r {
                Some(rec) => spec_parse_block(block) == Some(rec@),
                None => spec_parse_block(block) is None,
            }
        }),
{
    let ghost block = lines_model(lines@).subrange(p as int, e as int);
    proof {
        assert(block[0] == lines@[p as int]@);
    }
    let name_raw = match colon_field1(lines[p].as_str()) {
        Some(f) => f,
        None => {
            return None;
        },
    };
    let bi = find_containing_from(lines, p, e, "BSSID");
    proof {
        assert forall|k: int| 0 <= k < bi - p implies !(bssid_line_pred()(#[trigger] block[k])) by {
            assert(block[k] == lines@[p + k]@);
        }
        if bi < e {
            assert(block[bi - p] == lines@[bi as int]@);
        }
        lemma_first_where_is(block, bssid_line_pred(), bi - p as int);
    }
    if bi == e {
        return None;
    }
    let si = find_containing_from(lines, p, e, "Signal");
    proof {
        assert forall|k: int| 0 <= k < si - p implies !(signal_line_pred()(
            #[trigger] block[k],
        )) by {
            assert(block[k] == lines@[p + k]@);
        }
        if si < e {
            assert(block[si - p] == lines@[si as int]@);
        }
        lemma_first_where_is(block, signal_line_pred(), si - p as int);
    }
    let addr_raw = match colon_field1(lines[bi].as_str()) {
        Some(f) => f,
        None => {
            return None;
        },
    };
    if si == e {
        return None;
    }
    let sig_raw = match colon_field1(lines[si].as_str()) {
        Some(f) => f,
        None => {
            return None;
        },
    };
    let sig_field = trim_str(sig_raw);
    let v = match parse_i32(sig_field) {
        Some(v) => v,
        None => {
            return None;
        },
    };
    Some(
        NetworkRecord {
            name: trim_str(name_raw).to_owned(),
            hardware_address: trim_str(addr_raw).to_owned(),
            signal_percent: v,
        },
    )
}

/// Parse block-oriented scan output: one candidate record per block.
pub fn parse_ssid_blocks(raw: &str) -> (r: Vec<NetworkRecord>)
    ensures
        records_model(r@) == spec_parse_blocks(spec_lines(raw@)),
{
    let lines = split_lines(raw);
    let ghost lm = lines_model(lines@);
    let mut out: Vec<NetworkRecord> = Vec::new();
    let mut p: usize = 0;
    proof {
        assert(lm.subrange(0, lm.len() as int) =~= lm);
        assert(records_model(out@) =~= Seq::<RecordModel>::empty());
    }
    while p < lines.len()
        invariant
            p <= lines.len(),
            lm == lines_model(lines@),
            spec_lines(raw@) == lm,
            spec_parse_blocks(lm) == records_model(out@) + spec_parse_blocks(
                lm.subrange(p as int, lm.len() as int),
            ),
        decreases lines.len() - p,
    {
        let ghost t = lm.subrange(p as int, lm.len() as int);
        proof {
            assert(t[0] == lines@[p as int]@);
        }
        if !is_marker_line(lines[p].as_str()) {
            proof {
                assert(t.subrange(1, t.len() as int) =~= lm.subrange(
                    p + 1,
                    lm.len() as int,
                ));
            }
            p = p + 1;
        } else {
            let ghost prev = out@;
            let e = find_marker_from(&lines, p + 1);
            proof {
                let t1 = t.subrange(1, t.len() as int);
                assert forall|k: int| 0 <= k < e - p - 1 implies !(marker_pred()(
                    #[trigger] t1[k],
                )) by {
                    assert(t1[k] == lines@[p + 1 + k]@);
                }
                if e < lines@.len() {
                    assert(t1[e - p - 1] == lines@[e as int]@);
                }
                lemma_first_where_is(t1, marker_pred(), e - p - 1 as int);
                assert(t.subrange(0, e - p as int) =~= lm.subrange(p as int, e as int));
                assert(t.subrange(e - p as int, t.len() as int) =~= lm.subrange(
                    e as int,
                    lm.len() as int,
                ));
            }
            let rec = parse_block(&lines, p, e);
            match rec {
                Some(rec) => {
                    out.push(rec);
                    proof {
                        lemma_records_model_push(prev, out@.last());
                        assert(records_model(out@) + spec_parse_blocks(
                            lm.subrange(e as int, lm.len() as int),
                        ) =~= records_model(prev) + (seq![out@.last()@] + spec_parse_blocks(
                            lm.subrange(e as int, lm.len() as int),
                        )));
                    }
                },
                None => {},
            }
            p = e;
        }
    }
    proof {
        assert(lm.subrange(p as int, lm.len() as int) =~= Seq::<Seq<char>>::empty());
        assert(records_model(out@) + spec_parse_blocks(
            lm.subrange(p as int, lm.len() as int),
        ) =~= records_model(out@));
    }
    out
}

} // verus!
