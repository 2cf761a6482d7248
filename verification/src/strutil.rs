//! Character-level string utilities: first-occurrence search, line
//! splitting, and equality, each with an exact specification.

use vstd::prelude::*;

verus! {

/// Index of the first occurrence of `c` at or after `from`, or `s.len()`
/// when there is none at or after `from`.
pub open spec fn find_char_from(s: Seq<char>, c: char, from: nat) -> nat
    decreases s.len() - from,
{
    if from >= s.len() {
        s.len()
    } else if s[from as int] == c {
        from
    } else {
        find_char_from(s, c, (from + 1) as nat)
    }
}

/// Index of the first character at or after `from` that differs from `c`,
/// or `s.len()` when there is none.
pub open spec fn skip_char_from(s: Seq<char>, c: char, from: nat) -> nat
    decreases s.len() - from,
{
    if from >= s.len() {
        s.len()
    } else if s[from as int] != c {
        from
    } else {
        skip_char_from(s, c, (from + 1) as nat)
    }
}

pub proof fn lemma_find_char_from(s: Seq<char>, c: char, from: nat)
    requires
        from <= s.len(),
    ensures
        from <= find_char_from(s, c, from) <= s.len(),
        find_char_from(s, c, from) < s.len() ==> s[find_char_from(s, c, from) as int] == c,
        forall|j: int| from <= j < find_char_from(s, c, from) ==> s[j] != c,
    decreases s.len() - from,
{
    if from < s.len() && s[from as int] != c {
        lemma_find_char_from(s, c, (from + 1) as nat);
    }
}

/// The characterization of `find_char_from` pins its value down.
pub proof fn lemma_find_char_unique(s: Seq<char>, c: char, from: nat, r: nat)
    requires
        from <= r <= s.len(),
        forall|j: int| from <= j < r ==> s[j] != c,
        r < s.len() ==> s[r as int] == c,
    ensures
        find_char_from(s, c, from) == r,
    decreases s.len() - from,
{
    if from < s.len() && s[from as int] != c {
        lemma_find_char_unique(s, c, (from + 1) as nat, r);
    }
}

pub proof fn lemma_skip_char_from(s: Seq<char>, c: char, from: nat)
    requires
        from <= s.len(),
    ensures
        from <= skip_char_from(s, c, from) <= s.len(),
        skip_char_from(s, c, from) < s.len() ==> s[skip_char_from(s, c, from) as int] != c,
        forall|j: int| from <= j < skip_char_from(s, c, from) ==> s[j] == c,
    decreases s.len() - from,
{
    if from < s.len() && s[from as int] == c {
        lemma_skip_char_from(s, c, (from + 1) as nat);
    }
}

/// First occurrence of `c` at or after `from`, by a linear scan.
pub fn find_char(s: &str, c: char, from: usize) -> (r: usize)
    requires
        from <= s@.len(),
    ensures
        r == find_char_from(s@, c, from as nat),
{
    let n = s.unicode_len();
    let mut i: usize = from;
    while i < n
        invariant
            from <= i <= n,
            n == s@.len(),
            find_char_from(s@, c, from as nat) == find_char_from(s@, c, i as nat),
        decreases n - i,
    {
        if s.get_char(i) == c {
            return i;
        }
        i += 1;
    }
    n
}

/// First character at or after `from` that is not `c`, by a linear scan.
pub fn skip_char(s: &str, c: char, from: usize) -> (r: usize)
    requires
        from <= s@.len(),
    ensures
        r == skip_char_from(s@, c, from as nat),
{
    let n = s.unicode_len();
    let mut i: usize = from;
    while i < n
        invariant
            from <= i <= n,
            n == s@.len(),
            skip_char_from(s@, c, from as nat) == skip_char_from(s@, c, i as nat),
        decreases n - i,
    {
        if s.get_char(i) != c {
            return i;
        }
        i += 1;
    }
    n
}

/// Whether two string slices hold the same characters.
pub fn str_eq(a: &str, b: &str) -> (r: bool)
    ensures
        r == (a@ == b@),
{
    let na = a.unicode_len();
    let nb = b.unicode_len();
    if na != nb {
        return false;
    }
    let mut i: usize = 0;
    while i < na
        invariant
            i <= na,
            na == a@.len(),
            na == b@.len(),
            forall|j: int| 0 <= j < i ==> a@[j] == b@[j],
        decreases na - i,
    {
        if a.get_char(i) != b.get_char(i) {
            proof {
                assert(a@[i as int] != b@[i as int]);
            }
            return false;
        }
        i += 1;
    }
    proof {
        assert(a@ =~= b@);
    }
    true
}

/// The pieces `s` splits into at each newline; one piece more than there are
/// newlines, so the result is never empty.
pub open spec fn spec_split_pieces(s: Seq<char>) -> Seq<Seq<char>>
    decreases s.len(),
{
    let j = find_char_from(s, '\n', 0);
    if j >= s.len() {
        seq![s]
    } else {
        seq![s.subrange(0, j as int)] + spec_split_pieces(
            s.subrange(j as int + 1, s.len() as int),
        )
    }
}

/// A piece without its trailing carriage return, if it has one.
pub open spec fn strip_cr(line: Seq<char>) -> Seq<char> {
    if line.len() > 0 && line.last() == '\r' {
        line.drop_last()
    } else {
        line
    }
}

/// The lines of `s`: newline-separated pieces, a final empty piece dropped
/// (so a trailing line terminator adds no line), and a carriage return
/// before each newline discarded.
pub open spec fn spec_lines(s: Seq<char>) -> Seq<Seq<char>> {
    let p = spec_split_pieces(s);
    let q = if p.len() > 0 && p.last().len() == 0 {
        p.drop_last()
    } else {
        p
    };
    q.map_values(|l: Seq<char>| strip_cr(l))
}

/// Splits `s` into its lines.
pub fn split_lines(s: &str) -> (r: Vec<String>)
    ensures
        r@.len() == spec_lines(s@).len(),
        forall|i: int| 0 <= i < r@.len() ==> r@[i]@ == spec_lines(s@)[i],
{
    let n = s.unicode_len();
    let mut pieces: Vec<String> = Vec::new();
    let mut pos: usize = 0;
    proof {
        assert(s@.subrange(0, n as int) =~= s@);
        lemma_find_char_from(s@, '\n', 0);
    }
    let mut j = find_char(s, '\n', 0);
    while j < n
        invariant
            pos <= j <= n,
            n == s@.len(),
            j == find_char_from(s@, '\n', pos as nat),
            spec_split_pieces(s@) =~= pieces@.map_values(|p: String| p@) + spec_split_pieces(
                s@.subrange(pos as int, n as int),
            ),
        decreases n - pos,
    {
        let ghost rest = s@.subrange(pos as int, n as int);
        let ghost old_map = pieces@.map_values(|p: String| p@);
        proof {
            lemma_find_char_from(s@, '\n', pos as nat);
            // the search relative to the remaining suffix lands at j - pos
            assert(forall|k: int| 0 <= k < rest.len() ==> rest[k] == s@[pos + k]);
            lemma_find_char_unique(rest, '\n', 0, (j - pos) as nat);
        }
        let piece = s.substring_char(pos, j);
        pieces.push(String::from_str(piece));
        proof {
            let jr = (j - pos) as int;
            assert(find_char_from(rest, '\n', 0) == jr);
            assert(spec_split_pieces(rest) == seq![rest.subrange(0, jr)] + spec_split_pieces(
                rest.subrange(jr + 1, rest.len() as int),
            ));
            assert(rest.subrange(0, jr) =~= s@.subrange(pos as int, j as int));
            assert(rest.subrange(jr + 1, rest.len() as int) =~= s@.subrange(
                j as int + 1,
                n as int,
            ));
            assert(pieces@.map_values(|p: String| p@) =~= old_map.push(
                s@.subrange(pos as int, j as int),
            ));
            assert(old_map.push(s@.subrange(pos as int, j as int)) + spec_split_pieces(
                s@.subrange(j as int + 1, n as int),
            ) =~= old_map + spec_split_pieces(rest));
        }
        pos = j + 1;
        j = find_char(s, '\n', pos);
        proof {
            lemma_find_char_from(s@, '\n', pos as nat);
        }
    }
    // no newline remains: the tail is the final piece
    let ghost rest = s@.subrange(pos as int, n as int);
    proof {
        lemma_find_char_from(s@, '\n', pos as nat);
        assert(forall|k: int| 0 <= k < rest.len() ==> rest[k] == s@[pos + k]);
        lemma_find_char_unique(rest, '\n', 0, rest.len() as nat);
    }
    let piece = s.substring_char(pos, n);
    pieces.push(String::from_str(piece));
    // drop a final empty piece, then strip carriage returns
    let last_idx = pieces.len() - 1;
    let last_ref = &pieces[last_idx];
    if last_ref.as_str().unicode_len() == 0 {
        pieces.pop();
        proof {
            assert(pieces@.map_values(|p: String| p@) =~= spec_split_pieces(s@).drop_last());
        }
    }
    let mut out: Vec<String> = Vec::new();
    let mut i: usize = 0;
    let ghost q = pieces@.map_values(|p: String| p@);
    while i < pieces.len()
        invariant
            i <= pieces@.len(),
            q == pieces@.map_values(|p: String| p@),
            spec_lines(s@) =~= q.map_values(|l: Seq<char>| strip_cr(l)),
            out@.len() == i,
            forall|k: int| 0 <= k < i ==> out@[k]@ == spec_lines(s@)[k],
        decreases pieces@.len() - i,
    {
        let p = &pieces[i];
        let plen = p.as_str().unicode_len();
        if plen > 0 && p.as_str().get_char(plen - 1) == '\r' {
            let stripped = p.as_str().substring_char(0, plen - 1);
            proof {
                assert(p@.subrange(0, plen - 1) =~= p@.drop_last());
            }
            out.push(String::from_str(stripped));
        } else {
            out.push(p.clone());
        }
        i += 1;
    }
    out
}

/// Relies on String::push: appends one character at the end.
#[verifier::external_body]
pub(crate) fn push_char(s: &mut String, c: char)
    ensures
        final(s)@ == old(s)@.push(c),
{
    s.push(c)
}

} // verus!
