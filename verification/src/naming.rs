//! The name of the table that a capture file is converted into: the file's
//! base name without its extension, followed by `.csv`.

use vstd::prelude::*;
use vstd::string::*;

verus! {

/// The index of the last `.` in `name`, or `-1` where it has none.
pub open spec fn last_dot(name: Seq<char>) -> int
    decreases name.len(),
{
    if name.len() == 0 {
        -1
    } else if name.last() == '.' {
        name.len() - 1
    } else {
        last_dot(name.drop_last())
    }
}

/// The base name without its extension. The extension starts at the last
/// `.`; a name without a `.`, or whose only `.` is its first character, has
/// no extension and is its own stem.
pub open spec fn file_stem(name: Seq<char>) -> Seq<char> {
    if last_dot(name) <= 0 {
        name
    } else {
        name.take(last_dot(name))
    }
}

/// The table's file name for a capture file with the given base name.
pub open spec fn output_name_of(base_name: Seq<char>) -> Seq<char> {
    file_stem(base_name) + ".csv"@
}

/// `last_dot` finds a `.`, and no `.` comes after it.
pub proof fn lemma_last_dot(name: Seq<char>)
    ensures
        -1 <= last_dot(name) < name.len(),
        last_dot(name) >= 0 ==> name[last_dot(name)] == '.',
        forall|i: int| last_dot(name) < i < name.len() ==> name[i] != '.',
    decreases name.len(),
{
    if name.len() > 0 && name.last() != '.' {
        let front = name.drop_last();
        lemma_last_dot(front);
        assert forall|i: int| last_dot(name) < i < name.len() implies name[i] != '.' by {
            if i < front.len() {
                assert(front[i] == name[i]);
            }
        }
    }
}

/// Computes the table's file name from the capture file's base name.
pub fn output_name(base_name: &str) -> (name: String)
    ensures
        name@ == output_name_of(base_name@),
{
    let len = base_name.unicode_len();
    let mut dot: usize = 0;
    let mut idx: usize = 0;
    for c in it: base_name.chars()
        invariant
            len == base_name@.len(),
            it.seq() == base_name@,
            idx == it.index(),
            dot <= idx,
            dot as int == if last_dot(base_name@.take(idx as int)) <= 0 {
                0
            } else {
                last_dot(base_name@.take(idx as int))
            },
    {
        proof {
            assert(base_name@.take(idx + 1).drop_last() =~= base_name@.take(idx as int));
        }
        if c == '.' {
            dot = idx;
        }
        idx = idx + 1;
    }
    proof {
        assert(base_name@.take(idx as int) =~= base_name@);
    }
    if dot == 0 {
        String::from_str(base_name).concat(".csv")
    } else {
        String::from_str(base_name.substring_char(0, dot)).concat(".csv")
    }
}

} // verus!
