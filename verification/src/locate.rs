//! Locating the target process among the entries of the system's process
//! directory: a process-id directory whose status record names the target
//! command.

use vstd::prelude::*;

use crate::num::is_radix_digit;
use crate::strutil::{find_char, find_char_from, lemma_find_char_from, str_eq};

verus! {

/// What an unverified reader reports of one process-directory entry: its
/// file name, whether it is a directory, and its status record's text
/// (left empty for entries whose record was not read).
pub struct ProcEntry {
    pub name: String,
    pub is_dir: bool,
    pub stat: String,
}

/// Whether an entry name denotes a process id: one or more decimal digits
/// and nothing else.
pub open spec fn spec_is_pid_name(name: Seq<char>) -> bool {
    name.len() > 0 && forall|i: int| 0 <= i < name.len() ==> is_radix_digit(#[trigger] name[i], 10)
}

/// Whether a directory-entry name is all decimal digits, as process-id
/// directories are.
pub fn is_pid_name(name: &str) -> (r: bool)
    ensures
        r == spec_is_pid_name(name@),
{
    let n = name.unicode_len();
    if n == 0 {
        return false;
    }
    let mut i: usize = 0;
    while i < n
        invariant
            i <= n,
            n == name@.len(),
            forall|j: int| 0 <= j < i ==> is_radix_digit(#[trigger] name@[j], 10),
        decreases n - i,
    {
        let c = name.get_char(i);
        let u = c as u32;
        if !(48 <= u && u <= 57) {
            proof {
                assert(!is_radix_digit(name@[i as int], 10));
            }
            return false;
        }
        i += 1;
    }
    true
}

/// The command field of a status record: the text between the record's
/// first space and the next one (or the record's end), exactly as the
/// kernel renders it, surrounding parentheses included. `None` when the
/// record holds no space at all.
pub open spec fn spec_stat_command(stat: Seq<char>) -> Option<Seq<char>> {
    let i = find_char_from(stat, ' ', 0);
    if i == stat.len() {
        None
    } else {
        let j = find_char_from(stat, ' ', (i + 1) as nat);
        Some(stat.subrange(i as int + 1, j as int))
    }
}

/// Extracts the command field from a status record.
pub fn stat_command(stat: &str) -> (r: Option<String>)
    ensures
        match spec_stat_command(stat@) {
            Some(c) => r matches Some(x) && x@ == c,
            None => r is None,
        },
{
    let n = stat.unicode_len();
    proof {
        lemma_find_char_from(stat@, ' ', 0);
    }
    let i = find_char(stat, ' ', 0);
    if i == n {
        return None;
    }
    proof {
        lemma_find_char_from(stat@, ' ', (i + 1) as nat);
    }
    let j = find_char(stat, ' ', i + 1);
    Some(String::from_str(stat.substring_char(i + 1, j)))
}

/// Whether one entry is the process looked for: a directory, named by a
/// process id, whose status record's command field equals the target.
pub open spec fn spec_entry_matches(e: ProcEntry, target: Seq<char>) -> bool {
    e.is_dir && spec_is_pid_name(e.name@) && spec_stat_command(e.stat@) == Some(target)
}

fn entry_matches(e: &ProcEntry, target_comm: &str) -> (r: bool)
    ensures
        r == spec_entry_matches(*e, target_comm@),
{
    if !e.is_dir {
        return false;
    }
    if !is_pid_name(e.name.as_str()) {
        return false;
    }
    match stat_command(e.stat.as_str()) {
        Some(c) => str_eq(c.as_str(), target_comm),
        None => false,
    }
}

/// Returns the index of the first entry, in the given order, that is a
/// process-id directory whose command field equals `target_comm` (the
/// command name as the kernel renders it, parentheses included), or
/// `None` when no entry matches.
pub fn locate_process(entries: &Vec<ProcEntry>, target_comm: &str) -> (r: Option<usize>)
    ensures
        match r {
            Some(i) => 0 <= i < entries@.len() && spec_entry_matches(
                entries@[i as int],
                target_comm@,
            ) && forall|j: int|
                0 <= j < i ==> !spec_entry_matches(#[trigger] entries@[j], target_comm@),
            None => forall|j: int|
                0 <= j < entries@.len() ==> !spec_entry_matches(
                    #[trigger] entries@[j],
                    target_comm@,
                ),
        },
{
    let mut i: usize = 0;
    while i < entries.len()
        invariant
            i <= entries@.len(),
            forall|j: int| 0 <= j < i ==> !spec_entry_matches(#[trigger] entries@[j], target_comm@),
        decreases entries@.len() - i,
    {
        if entry_matches(&entries[i], target_comm) {
            return Some(i);
        }
        i += 1;
    }
    None
}

} // verus!
