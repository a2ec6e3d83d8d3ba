use vstd::prelude::*;
use crate::numeric::{parse_i32, spec_parse_i32};
use crate::record::{lemma_records_model_push, records_model, NetworkRecord, RecordModel};
use crate::text::{
    find_ws_from, first_where, is_ws, is_ws_char, lemma_first_where_is, lemma_lines_model_push,
    lines_model, spec_lines, split_lines, ws_pred,
};

verus! {

/// The whitespace-separated tokens of `s`, in order: maximal runs of
/// non-whitespace characters, as `str::split_whitespace` yields them.
pub open spec fn spec_tokens(s: Seq<char>) -> Seq<Seq<char>>
    decreases s.len(),
{
    if s.len() == 0 {
        Seq::empty()
    } else if is_ws_char(s[0]) {
        spec_tokens(s.subrange(1, s.len() as int))
    } else {
        let i = first_where(s, ws_pred());
        if 1 <= i < s.len() {
            seq![s.subrange(0, i)] + spec_tokens(s.subrange(i, s.len() as int))
        } else {
            seq![s]
        }
    }
}

/// Split `line` into its whitespace-separated tokens.
pub fn tokens_of(line: &str) -> (r: Vec<String>)
    ensures
        lines_model(r@) == spec_tokens(line@),
{
    let n = line.unicode_len();
    let mut out: Vec<String> = Vec::new();
    let mut p: usize = 0;
    proof {
        assert(line@.subrange(0, n as int) =~= line@);
        assert(lines_model(out@) =~= Seq::<Seq<char>>::empty());
    }
    while p < n
        invariant
            p <= n,
            n == line@.len(),
            spec_tokens(line@) == lines_model(out@) + spec_tokens(
                line@.subrange(p as int, n as int),
            ),
        decreases n - p,
    {
        let ghost t = line@.subrange(p as int, n as int);
        if is_ws(line.get_char(p)) {
            proof {
                assert(t[0] == line@[p as int]);
                assert(t.subrange(1, t.len() as int) =~= line@.subrange(p + 1, n as int));
            }
            p = p + 1;
        } else {
            let ghost prev = out@;
            let e = find_ws_from(line, p);
            proof {
                assert forall|k: int| 0 <= k < e - p implies !(ws_pred()(#[trigger] t[k])) by {
                    assert(t[k] == line@[p + k]);
                }
                if e < n {
                    assert(ws_pred()(t[e - p]));
                }
                lemma_first_where_is(t, ws_pred(), e - p);
                assert(t[0] == line@[p as int]);
                assert(t.subrange(0, e - p) =~= line@.subrange(p as int, e as int));
                if e < n {
                    assert(t.subrange(e - p, t.len() as int) =~= line@.subrange(
                        e as int,
                        n as int,
                    ));
                    assert(spec_tokens(t) == seq![line@.subrange(p as int, e as int)]
                        + spec_tokens(line@.subrange(e as int, n as int)));
                } else {
                    assert(t =~= line@.subrange(p as int, e as int));
                    assert(spec_tokens(t) == seq![line@.subrange(p as int, e as int)]);
                }
            }
            let tok = line.substring_char(p, e).to_owned();
            out.push(tok);
            proof {
                lemma_lines_model_push(prev, out@.last());
                assert(lines_model(out@) + spec_tokens(line@.subrange(e as int, n as int))
                    =~= lines_model(prev) + spec_tokens(t));
                if e == n {
                    assert(spec_tokens(line@.subrange(e as int, n as int))
                        =~= Seq::<Seq<char>>::empty());
                }
            }
            p = e;
        }
    }
    proof {
        assert(line@.subrange(n as int, n as int) =~= Seq::<char>::empty());
        assert(lines_model(out@) + spec_tokens(line@.subrange(p as int, n as int)) =~= lines_model(
            out@,
        ));
    }
    out
}

/// One line of whitespace-columnar scan output: three or more tokens,
/// taken positionally as name, hardware address and signal. Extra tokens
/// are ignored; a short line or a non-numeric third token yields no
/// record.
pub open spec fn spec_parse_columns_line(line: Seq<char>) -> Option<RecordModel> {
    let ts = spec_tokens(line);
    if ts.len() < 3 {
        None
    } else {
        match spec_parse_i32(ts[2]) {
            None => None,
            Some(v) => Some(
                RecordModel { name: ts[0], hardware_address: ts[1], signal_percent: v },
            ),
        }
    }
}

/// The records of a sequence of whitespace-columnar lines, in input
/// order; lines that yield no record are dropped.
pub open spec fn spec_parse_columns_lines(lines: Seq<Seq<char>>) -> Seq<RecordModel>
    decreases lines.len(),
{
    if lines.len() == 0 {
        Seq::empty()
    } else {
        let rest = spec_parse_columns_lines(lines.drop_last());
        match spec_parse_columns_line(lines.last()) {
            Some(r) => rest.push(r),
            None => rest,
        }
    }
}

/// Parse one whitespace-columnar line.
pub fn parse_columns_line(line: &str) -> (r: Option<NetworkRecord>)
    ensures
        match r {
            Some(rec) => spec_parse_columns_line(line@) == Some(rec@),
            None => spec_parse_columns_line(line@) is None,
        },
{
    let ts = tokens_of(line);
    if ts.len() < 3 {
        return None;
    }
    proof {
        assert(lines_model(ts@)[0] == ts@[0]@);
        assert(lines_model(ts@)[1] == ts@[1]@);
        assert(lines_model(ts@)[2] == ts@[2]@);
    }
    let v = match parse_i32(ts[2].as_str()) {
        Some(v) => v,
        None => {
            return None;
        },
    };
    Some(
        NetworkRecord {
            name: ts[0].clone(),
            hardware_address: ts[1].clone(),
            signal_percent: v,
        },
    )
}

/// Parse whitespace-columnar scan output: one candidate record per line.
pub fn parse_whitespace_columns(raw: &str) -> (r: Vec<NetworkRecord>)
    ensures
        records_model(r@) == spec_parse_columns_lines(spec_lines(raw@)),
{
    let lines = split_lines(raw);
    let ghost lm = lines_model(lines@);
    let mut out: Vec<NetworkRecord> = Vec::new();
    let mut i: usize = 0;
    proof {
        assert(lm.subrange(0, 0) =~= Seq::<Seq<char>>::empty());
        assert(records_model(out@) =~= Seq::<RecordModel>::empty());
    }
    while i < lines.len()
        invariant
            i <= lines.len(),
            lm == lines_model(lines@),
            spec_lines(raw@) == lm,
            records_model(out@) == spec_parse_columns_lines(lm.subrange(0, i as int)),
        decreases lines.len() - i,
    {
        let ghost prev = out@;
        let rec = parse_columns_line(lines[i].as_str());
        proof {
            assert(lm.subrange(0, i + 1).drop_last() =~= lm.subrange(0, i as int));
            assert(lm.subrange(0, i + 1).last() == lm[i as int]);
            assert(lm[i as int] == lines@[i as int]@);
        }
        match rec {
            Some(rec) => {
                out.push(rec);
                proof {
                    lemma_records_model_push(prev, out@.last());
                }
            },
            None => {},
        }
        i = i + 1;
    }
    proof {
        assert(lm.subrange(0, i as int) =~= lm);
    }
    out
}

} // verus!
