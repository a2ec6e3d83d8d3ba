use vstd::prelude::*;
use crate::numeric::{is_digit_char, parse_i32, spec_parse_i32};
use crate::record::{lemma_records_model_push, records_model, NetworkRecord, RecordModel};
use crate::text::{
    char_is, find_char_from, first_where, is_blank, last_where, lemma_first_where_is,
    lemma_last_where, lemma_last_where_is, lines_model, rfind_char, spec_lines, split_lines,
    trim_empty,
};

verus! {

/// One line of colon-delimited scan output, `name:hardware_address:signal`,
/// read right to left: the trailing colon-delimited field is the signal,
/// and the remainder splits at its first colon into name and hardware
/// address. A line without two colons, with a non-numeric signal field, or
/// with a name or address that is empty after trimming yields no record.
pub open spec fn spec_parse_colon_line(line: Seq<char>) -> Option<RecordModel> {
    let j = last_where(line, char_is(':'));
    if j < 0 {
        None
    } else {
        match spec_parse_i32(line.subrange(j + 1, line.len() as int)) {
            None => None,
            Some(v) => {
                let head = line.subrange(0, j);
                let i = first_where(head, char_is(':'));
                if !(0 <= i < head.len()) {
                    None
                } else {
                    let name = head.subrange(0, i);
                    let addr = head.subrange(i + 1, head.len() as int);
                    if trim_empty(name) || trim_empty(addr) {
                        None
                    } else {
                        Some(
                            RecordModel {
                                name: name,
                                hardware_address: addr,
                                signal_percent: v,
                            },
                        )
                    }
                }
            },
        }
    }
}

/// The records of a sequence of colon-delimited lines, in input order;
/// lines that yield no record are dropped.
pub open spec fn spec_parse_colon_lines(lines: Seq<Seq<char>>) -> Seq<RecordModel>
    decreases lines.len(),
{
    if lines.len() == 0 {
        Seq::empty()
    } else {
        let rest = spec_parse_colon_lines(lines.drop_last());
        match spec_parse_colon_line(lines.last()) {
            Some(r) => rest.push(r),
            None => rest,
        }
    }
}

/// Parse one colon-delimited line.
pub fn parse_colon_line(line: &str) -> (r: Option<NetworkRecord>)
    ensures
        match r {
            Some(rec) => spec_parse_colon_line(line@) == Some(rec@),
            None => spec_parse_colon_line(line@) is None,
        },
{
    let n = line.unicode_len();
    let j = match rfind_char(line, ':') {
        Some(j) => j,
        None => {
            proof {
                lemma_last_where_is(line@, char_is(':'), -1);
            }
            return None;
        },
    };
    proof {
        lemma_last_where_is(line@, char_is(':'), j as int);
    }
    let signal_field = line.substring_char(j + 1, n);
    let v = match parse_i32(signal_field) {
        Some(v) => v,
        None => {
            return None;
        },
    };
    let head = line.substring_char(0, j);
    let i = find_char_from(head, 0, ':');
    if i == j {
        proof {
            lemma_first_where_is(head@, char_is(':'), i as int);
        }
        return None;
    }
    proof {
        lemma_first_where_is(head@, char_is(':'), i as int);
    }
    let name = head.substring_char(0, i);
    let addr = head.substring_char(i + 1, j);
    if is_blank(name) || is_blank(addr) {
        return None;
    }
    Some(
        NetworkRecord {
            name: name.to_owned(),
            hardware_address: addr.to_owned(),
            signal_percent: v,
        },
    )
}

/// Parse colon-delimited scan output: one candidate record per line.
pub fn parse_colon_delimited(raw: &str) -> (r: Vec<NetworkRecord>)
    ensures
        records_model(r@) == spec_parse_colon_lines(spec_lines(raw@)),
{
    let lines = split_lines(raw);
    let ghost lm = lines_model(lines@);
    let mut out: Vec<NetworkRecord> = Vec::new();
    let mut i: usize = 0;
    proof {
        assert(lm.subrange(0, 0) =~= Seq::<Seq<char>>::empty());
        assert(records_model(out@) =~= Seq::<RecordModel>::empty());
    }
    while i < lines.len()
        invariant
            i <= lines.len(),
            lm == lines_model(lines@),
            spec_lines(raw@) == lm,
            records_model(out@) == spec_parse_colon_lines(lm.subrange(0, i as int)),
        decreases lines.len() - i,
    {
        let ghost prev = out@;
        let rec = parse_colon_line(lines[i].as_str());
        proof {
            assert(lm.subrange(0, i + 1).drop_last() =~= lm.subrange(0, i as int));
            assert(lm.subrange(0, i + 1).last() == lm[i as int]);
            assert(lm[i as int] == lines@[i as int]@);
        }
        match rec {
            Some(rec) => {
                out.push(rec);
                proof {
                    lemma_records_model_push(prev, out@.last());
                }
            },
            None => {},
        }
        i = i + 1;
    }
    proof {
        assert(lm.subrange(0, i as int) =~= lm);
    }
    out
}

// ---------------------------------------------------------------------------
// Laws of the colon-delimited format
// ---------------------------------------------------------------------------

/// A field the signal parser accepts contains no colon: it is a sign
/// followed by digits, or digits alone.
pub proof fn lemma_numeric_field_has_no_colon(sig: Seq<char>)
    requires
        spec_parse_i32(sig) is Some,
    ensures
        forall|k: int| 0 <= k < sig.len() ==> #[trigger] sig[k] != ':',
{
    assert forall|k: int| 0 <= k < sig.len() implies #[trigger] sig[k] != ':' by {
        let off: int = if sig[0] == '+' || sig[0] == '-' {
            1
        } else {
            0
        };
        let ds = sig.subrange(off, sig.len() as int);
        if k >= off {
            assert(is_digit_char(ds[k - off]));
            assert(ds[k - off] == sig[k]);
        }
    }
}

/// Every well-formed colon-delimited line yields exactly one record, with
/// exactly its three fields: for a name without colons that is not blank,
/// an address that is not blank, and a numeric signal field, the line
/// `name:address:signal` parses to precisely that record.
pub proof fn lemma_colon_line_accepts(name: Seq<char>, addr: Seq<char>, sig: Seq<char>)
    requires
        forall|k: int| 0 <= k < name.len() ==> #[trigger] name[k] != ':',
        !trim_empty(name),
        !trim_empty(addr),
        spec_parse_i32(sig) is Some,
    ensures
        spec_parse_colon_line(name + seq![':'] + addr + seq![':'] + sig) == Some(
            RecordModel {
                name: name,
                hardware_address: addr,
                signal_percent: spec_parse_i32(sig).unwrap(),
            },
        ),
{
    let line = name + seq![':'] + addr + seq![':'] + sig;
    let j = name.len() + 1 + addr.len() as int;
    lemma_numeric_field_has_no_colon(sig);
    assert(line[j] == ':');
    assert forall|k: int| j < k < line.len() implies !(char_is(':')(#[trigger] line[k])) by {
        assert(line[k] == sig[k - j - 1]);
    }
    lemma_last_where_is(line, char_is(':'), j);
    assert(line.subrange(j + 1, line.len() as int) =~= sig);
    let head = line.subrange(0, j);
    assert(head =~= name + seq![':'] + addr);
    assert forall|k: int| 0 <= k < name.len() implies !(char_is(':')(#[trigger] head[k])) by {
        assert(head[k] == name[k]);
    }
    assert(head[name.len() as int] == ':');
    lemma_first_where_is(head, char_is(':'), name.len() as int);
    assert(head.subrange(0, name.len() as int) =~= name);
    assert(head.subrange(name.len() as int + 1, head.len() as int) =~= addr);
}

/// A colon-delimited line yields a record only when it is well formed: if
/// it parses, it has a last colon, the field after it is numeric, the
/// remainder has a colon of its own, and the name and address on either
/// side of that colon are not blank — and the record's fields are exactly
/// those parts. Contrapositively, a line with a non-numeric trailing
/// field, or a blank name or address, yields no record.
pub proof fn lemma_colon_line_inversion(line: Seq<char>)
    requires
        spec_parse_colon_line(line) is Some,
    ensures
        ({
            let j = last_where(line, char_is(':'));
            let head = line.subrange(0, j);
            let i = first_where(head, char_is(':'));
            &&& 0 <= j < line.len()
            &&& spec_parse_i32(line.subrange(j + 1, line.len() as int)) is Some
            &&& 0 <= i < head.len()
            &&& !trim_empty(head.subrange(0, i))
            &&& !trim_empty(head.subrange(i + 1, head.len() as int))
            &&& spec_parse_colon_line(line) == Some(
                RecordModel {
                    name: head.subrange(0, i),
                    hardware_address: head.subrange(i + 1, head.len() as int),
                    signal_percent: spec_parse_i32(
                        line.subrange(j + 1, line.len() as int),
                    ).unwrap(),
                },
            )
        }),
{
    lemma_last_where(line, char_is(':'));
}

} // verus!
