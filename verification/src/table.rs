//! Reading the connection table text: the first line is parsed as the
//! header, and every further line is sliced by the header's field spans
//! into one name-to-value record per row.

use vstd::prelude::*;

use crate::header::{field_matches, field_starts, parse_header, token_end};
use crate::strutil::{
    find_char, find_char_from, lemma_find_char_from, lemma_skip_char_from, skip_char,
    skip_char_from, spec_lines, split_lines, str_eq,
};
use crate::SocketError;

verus! {

/// One data row: each header field's name paired with the row's raw value
/// for it, in header order.
#[derive(Debug)]
pub struct ConnectionRecord {
    pub entries: Vec<(String, String)>,
}

/// The value under `name` among `entries`, taking the last entry so named,
/// as a map built from the entries in order would.
pub open spec fn spec_lookup(entries: Seq<(Seq<char>, Seq<char>)>, name: Seq<char>) -> Option<
    Seq<char>,
>
    decreases entries.len(),
{
    if entries.len() == 0 {
        None
    } else if entries.last().0 == name {
        Some(entries.last().1)
    } else {
        spec_lookup(entries.drop_last(), name)
    }
}

impl ConnectionRecord {
    /// The record's entries as name/value character sequences.
    pub open spec fn entries_view(&self) -> Seq<(Seq<char>, Seq<char>)> {
        self.entries@.map_values(|p: (String, String)| (p.0@, p.1@))
    }

    /// Looks a field's value up by name.
    pub fn get<'a>(&'a self, name: &str) -> (r: Option<&'a String>)
        ensures
            match spec_lookup(self.entries_view(), name@) {
                Some(v) => r matches Some(x) && x@ == v,
                None => r is None,
            },
    {
        let ghost ev = self.entries_view();
        let mut i: usize = self.entries.len();
        proof {
            assert(ev.subrange(0, i as int) =~= ev);
        }
        while i > 0
            invariant
                i <= self.entries@.len(),
                ev == self.entries_view(),
                spec_lookup(ev, name@) == spec_lookup(ev.subrange(0, i as int), name@),
            decreases i,
        {
            let entry = &self.entries[i - 1];
            proof {
                assert(ev[i - 1] == (entry.0@, entry.1@));
                assert(ev.subrange(0, i as int).last() == ev[i - 1]);
                assert(ev.subrange(0, i as int).drop_last() =~= ev.subrange(0, i - 1));
            }
            if str_eq(entry.0.as_str(), name) {
                return Some(&entry.1);
            }
            i -= 1;
        }
        proof {
            assert(ev.subrange(0, 0) =~= Seq::<(Seq<char>, Seq<char>)>::empty());
        }
        None
    }
}

/// An optional column bound as a mathematical value.
pub open spec fn end_as_nat(end: Option<usize>) -> Option<nat> {
    match end {
        Some(e) => Some(e as nat),
        None => None,
    }
}

/// The raw value of one field in a data line: the first space-separated
/// token of the line's slice for the span from `start` to `end`, both
/// clamped to the line's length, with `None` meaning the line's end.
/// A span beyond the line yields the empty value; no input fails.
pub open spec fn spec_field_value(line: Seq<char>, start: nat, end: Option<nat>) -> Seq<char> {
    let limit = line.len();
    let hi = match end {
        Some(e) => if e < limit {
            e
        } else {
            limit
        },
        None => limit,
    };
    let lo = if start < hi {
        start
    } else {
        hi
    };
    let a0 = skip_char_from(line, ' ', lo);
    let a = if a0 < hi {
        a0
    } else {
        hi
    };
    let b0 = find_char_from(line, ' ', a);
    let b = if b0 < hi {
        b0
    } else {
        hi
    };
    line.subrange(a as int, b as int)
}

/// The record a data line yields under a header: one entry per header
/// field, the field's name paired with the line's value for its span.
pub open spec fn spec_record(header: Seq<char>, line: Seq<char>) -> Seq<(Seq<char>, Seq<char>)> {
    let st = field_starts(header);
    Seq::new(
        st.len(),
        |k: int|
            (
                header.subrange(st[k], token_end(header, st[k] as nat) as int),
                spec_field_value(
                    line,
                    st[k] as nat,
                    if k + 1 < st.len() {
                        Some(st[k + 1] as nat)
                    } else {
                        None
                    },
                ),
            ),
    )
}

/// Extracts one field's raw value from a data line.
fn field_value(line: &str, start: usize, end: Option<usize>) -> (r: String)
    ensures
        r@ == spec_field_value(line@, start as nat, end_as_nat(end)),
{
    let limit = line.unicode_len();
    let hi = match end {
        Some(e) => if e < limit {
            e
        } else {
            limit
        },
        None => limit,
    };
    let lo = if start < hi {
        start
    } else {
        hi
    };
    proof {
        lemma_skip_char_from(line@, ' ', lo as nat);
    }
    let a0 = skip_char(line, ' ', lo);
    let a = if a0 < hi {
        a0
    } else {
        hi
    };
    proof {
        lemma_find_char_from(line@, ' ', a as nat);
    }
    let b0 = find_char(line, ' ', a);
    let b = if b0 < hi {
        b0
    } else {
        hi
    };
    String::from_str(line.substring_char(a, b))
}

/// Parses the whole connection table text: the first line is the header,
/// each further line becomes one record, in row order. A text without a
/// single line has no header and is malformed.
pub fn parse_table(text: &str) -> (r: Result<Vec<ConnectionRecord>, SocketError>)
    ensures
        ({
            let lines = spec_lines(text@);
            if lines.len() == 0 {
                r == Err::<Vec<ConnectionRecord>, SocketError>(SocketError::MalformedTable)
            } else {
                r matches Ok(v) && v@.len() == lines.len() - 1 && (forall|i: int|
                    0 <= i < v@.len() ==> (#[trigger] v@[i]).entries_view() == spec_record(
                        lines[0],
                        lines[i + 1],
                    ))
            }
        }),
{
    let ghost lns = spec_lines(text@);
    let lines = split_lines(text);
    if lines.len() == 0 {
        return Err(SocketError::MalformedTable);
    }
    let header_line = &lines[0];
    let ghost h = header_line@;
    let ghost st = field_starts(h);
    let hn = header_line.as_str().unicode_len();
    proof {
        crate::header::lemma_header_fields_cover(h);
        assert(forall|k: int| 0 <= k < st.len() ==> 0 <= #[trigger] st[k] < hn);
    }
    let fields = parse_header(header_line.as_str());
    let mut out: Vec<ConnectionRecord> = Vec::new();
    let mut i: usize = 1;
    while i < lines.len()
        invariant
            1 <= i <= lines@.len(),
            lns == spec_lines(text@),
            lines@.len() == lns.len(),
            forall|j: int| 0 <= j < lines@.len() ==> (#[trigger] lines@[j])@ == lns[j],
            h == lns[0],
            st == field_starts(h),
            hn == h.len(),
            forall|k: int| 0 <= k < st.len() ==> 0 <= #[trigger] st[k] < hn,
            fields@.len() == st.len(),
            forall|k: int| 0 <= k < fields@.len() ==> field_matches(h, st, #[trigger] fields@[k], k),
            out@.len() == i - 1,
            forall|j: int|
                0 <= j < out@.len() ==> (#[trigger] out@[j]).entries_view() == spec_record(
                    lns[0],
                    lns[j + 1],
                ),
        decreases lines@.len() - i,
    {
        let line = &lines[i];
        let ghost l = line@;
        let mut entries: Vec<(String, String)> = Vec::new();
        let mut k: usize = 0;
        while k < fields.len()
            invariant
                k <= fields@.len(),
                fields@.len() == st.len(),
                st == field_starts(h),
                hn == h.len(),
                forall|k2: int| 0 <= k2 < st.len() ==> 0 <= #[trigger] st[k2] < hn,
                l == line@,
                forall|k2: int|
                    0 <= k2 < fields@.len() ==> field_matches(h, st, #[trigger] fields@[k2], k2),
                entries@.len() == k,
                forall|j: int|
                    0 <= j < k ==> (#[trigger] entries@[j].0@, entries@[j].1@) == spec_record(
                        h,
                        l,
                    )[j],
            decreases fields@.len() - k,
        {
            let f = &fields[k];
            let name = f.name.clone();
            let value = field_value(line.as_str(), f.start_col, f.end_col);
            entries.push((name, value));
            proof {
                assert(end_as_nat(f.end_col) == (if k + 1 < st.len() {
                    Some(st[k as int + 1] as nat)
                } else {
                    None
                }));
                assert(entries@[k as int].0@ == spec_record(h, l)[k as int].0);
                assert(entries@[k as int].1@ == spec_record(h, l)[k as int].1);
            }
            k += 1;
        }
        let rec = ConnectionRecord { entries };
        proof {
            assert(rec.entries_view() =~= spec_record(h, l));
        }
        out.push(rec);
        i += 1;
    }
    Ok(out)
}

} // verus!
