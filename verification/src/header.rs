//! Parsing of the connection table's header line into named field spans.
//!
//! The header's labels and the data values below them are not fixed-width
//! aligned, so a field's span runs from its label's first character to the
//! next label's first character, and the last field's span is left open.

use vstd::prelude::*;

use crate::strutil::{find_char, find_char_from, lemma_find_char_from};

verus! {

/// One named column of the header: where it starts, and where the next
/// column starts (`None` for the last column, whose span is open-ended).
#[derive(Debug)]
pub struct HeaderField {
    pub name: String,
    pub start_col: usize,
    pub end_col: Option<usize>,
}

/// Whether a field begins at `i`: a non-space character at the line's
/// start or right after a space.
pub open spec fn is_field_start(s: Seq<char>, i: int) -> bool {
    0 <= i < s.len() && s[i] != ' ' && (i == 0 || s[i - 1] == ' ')
}

/// The field-start indices below `n`, in increasing order.
pub open spec fn field_starts_up_to(s: Seq<char>, n: int) -> Seq<int>
    decreases n,
{
    if n <= 0 {
        Seq::empty()
    } else if is_field_start(s, n - 1) {
        field_starts_up_to(s, n - 1).push(n - 1)
    } else {
        field_starts_up_to(s, n - 1)
    }
}

/// All field-start indices of the header line, in increasing order.
pub open spec fn field_starts(s: Seq<char>) -> Seq<int> {
    field_starts_up_to(s, s.len() as int)
}

/// End of the non-space run beginning at `i`: the next space, or the
/// line's end.
pub open spec fn token_end(s: Seq<char>, i: nat) -> nat {
    find_char_from(s, ' ', i)
}

/// Whether some span delimited by consecutive entries of `st` (the last
/// span being open) contains position `i`.
pub open spec fn covered_by(st: Seq<int>, i: int) -> bool {
    exists|k: int|
        #![trigger st[k]]
        0 <= k < st.len() && st[k] <= i && (k + 1 < st.len() ==> i < st[k + 1])
}

proof fn lemma_field_starts_props(s: Seq<char>, n: int)
    requires
        0 <= n <= s.len(),
    ensures
        forall|k: int|
            0 <= k < field_starts_up_to(s, n).len() ==> is_field_start(
                s,
                #[trigger] field_starts_up_to(s, n)[k],
            ) && field_starts_up_to(s, n)[k] < n,
        forall|j: int, k: int|
            0 <= j < k < field_starts_up_to(s, n).len() ==> field_starts_up_to(s, n)[j]
                < field_starts_up_to(s, n)[k],
        forall|i: int| 0 <= i < n && s[i] != ' ' ==> covered_by(field_starts_up_to(s, n), i),
    decreases n,
{
    if n > 0 {
        lemma_field_starts_props(s, n - 1);
        let f0 = field_starts_up_to(s, n - 1);
        let f1 = field_starts_up_to(s, n);
        assert forall|i: int| 0 <= i < n && s[i] != ' ' implies covered_by(f1, i) by {
            if is_field_start(s, n - 1) {
                assert(f1 == f0.push(n - 1));
                if i < n - 1 {
                    let k = choose|k: int|
                        #![trigger f0[k]]
                        0 <= k < f0.len() && f0[k] <= i && (k + 1 < f0.len() ==> i < f0[k + 1]);
                    assert(f1[k] == f0[k]);
                    assert(f1[k] <= i && (k + 1 < f1.len() ==> i < f1[k + 1]));
                } else {
                    let k = f1.len() - 1;
                    assert(f1[k] == n - 1);
                    assert(f1[k] <= i && (k + 1 < f1.len() ==> i < f1[k + 1]));
                }
            } else {
                assert(f1 == f0);
                if i < n - 1 {
                    assert(covered_by(f0, i));
                } else {
                    // no field starts at i, so i follows another non-space
                    // character and sits in the same span as it
                    assert(i == n - 1 && i > 0 && s[i - 1] != ' ');
                    assert(covered_by(f0, i - 1));
                    let k = choose|k: int|
                        #![trigger f0[k]]
                        0 <= k < f0.len() && f0[k] <= i - 1 && (k + 1 < f0.len() ==> i - 1 < f0[k
                            + 1]);
                    assert(k + 1 < f0.len() ==> f0[k + 1] < n - 1);
                    assert(f1[k] <= i && (k + 1 < f1.len() ==> i < f1[k + 1]));
                }
            }
        }
    }
}

/// Law: the header's field starts are strictly increasing, and the spans
/// they delimit — each running to the next start, the last to the line's
/// end — cover every non-space character of the line.
pub proof fn lemma_header_fields_cover(s: Seq<char>)
    ensures
        forall|k: int|
            0 <= k < field_starts(s).len() ==> is_field_start(
                s,
                #[trigger] field_starts(s)[k],
            ),
        forall|j: int, k: int|
            0 <= j < k < field_starts(s).len() ==> field_starts(s)[j] < field_starts(s)[k],
        forall|i: int| 0 <= i < s.len() && s[i] != ' ' ==> covered_by(field_starts(s), i),
{
    lemma_field_starts_props(s, s.len() as int);
}

/// What the parsed header promises of its `j`-th field, relative to the
/// start indices `st`: it starts at `st[j]`, is named by the non-space run
/// there, and ends where the next field starts (the last field is open).
pub open spec fn field_matches(s: Seq<char>, st: Seq<int>, f: HeaderField, j: int) -> bool {
    &&& f.start_col == st[j]
    &&& f.name@ == s.subrange(st[j], token_end(s, st[j] as nat) as int)
    &&& (if j + 1 < st.len() {
        f.end_col == Some(st[j + 1] as usize)
    } else {
        f.end_col is None
    })
}

/// Parses the header line into its fields: one per non-space run, named by
/// that run, spanning from the run's first character to the next run's
/// first character, the last span open-ended.
pub fn parse_header(header: &str) -> (r: Vec<HeaderField>)
    ensures
        r@.len() == field_starts(header@).len(),
        forall|k: int|
            0 <= k < r@.len() ==> field_matches(header@, field_starts(header@), #[trigger] r@[k], k),
{
    let n = header.unicode_len();
    let mut starts: Vec<usize> = Vec::new();
    let mut prev_was_separator = true;
    let mut i: usize = 0;
    while i < n
        invariant
            i <= n,
            n == header@.len(),
            prev_was_separator == (i == 0 || header@[i - 1] == ' '),
            starts@.map_values(|x: usize| x as int) == field_starts_up_to(header@, i as int),
            forall|k: int| 0 <= k < starts@.len() ==> #[trigger] starts@[k] < i,
        decreases n - i,
    {
        let c = header.get_char(i);
        if c != ' ' && prev_was_separator {
            let ghost old_starts = starts@;
            starts.push(i);
            proof {
                assert(starts@.map_values(|x: usize| x as int) =~= old_starts.map_values(
                    |x: usize| x as int,
                ).push(i as int));
            }
        }
        prev_was_separator = c == ' ';
        i += 1;
    }
    let ghost st = field_starts(header@);
    proof {
        lemma_field_starts_props(header@, n as int);
    }
    let m = starts.len();
    let mut fields: Vec<HeaderField> = Vec::new();
    let mut k: usize = 0;
    while k < m
        invariant
            k <= m,
            n == header@.len(),
            m == starts@.len(),
            starts@.map_values(|x: usize| x as int) == st,
            st == field_starts(header@),
            forall|j: int| 0 <= j < starts@.len() ==> #[trigger] starts@[j] < n,
            fields@.len() == k,
            forall|j: int| 0 <= j < k ==> field_matches(header@, st, #[trigger] fields@[j], j),
        decreases m - k,
    {
        let start = starts[k];
        let end_col = if k + 1 < m {
            Some(starts[k + 1])
        } else {
            None
        };
        proof {
            lemma_find_char_from(header@, ' ', start as nat);
        }
        let te = find_char(header, ' ', start);
        let name_slice = header.substring_char(start, te);
        fields.push(HeaderField { name: String::from_str(name_slice), start_col: start, end_col });
        proof {
            let kk = k as int;
            assert(starts@.map_values(|x: usize| x as int)[kk] == starts@[kk] as int);
            assert(st[kk] == starts@[kk] as int);
            if kk + 1 < st.len() {
                assert(starts@.map_values(|x: usize| x as int)[kk + 1] == starts@[kk + 1] as int);
                assert(st[kk + 1] == starts@[kk + 1] as int);
            }
            assert(fields@[kk].start_col == st[kk]);
            assert(fields@[kk].name@ == header@.subrange(
                st[kk],
                token_end(header@, st[kk] as nat) as int,
            ));
            assert(field_matches(header@, st, fields@[kk], kk));
        }
        k += 1;
    }
    fields
}

} // verus!
