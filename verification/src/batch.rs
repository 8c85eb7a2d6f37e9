//! What a batch leaves behind: the tables in the working directory once
//! every file of the batch was converted or has failed.
//!
//! Workers finish their files in no fixed order, and a file that fails
//! writes nothing that counts. This module states what follows for the
//! directory as a whole. Two capture files whose names differ only in the
//! extension are written to the same table, and the one that finishes last
//! wins; what is said here of counts and of order therefore holds where no
//! two tables share a name.

use crate::catalog::FieldView;
use crate::invocation::header_cells;
use crate::naming::output_name_of;
use crate::table::table_bytes;
use vstd::prelude::*;

verus! {

/// How the conversion of one file ended.
pub enum Outcome {
    /// The table was written under the name `outfile`.
    Written { outfile: Seq<char>, table: Seq<u8> },
    /// The conversion failed and was reported.
    Failed,
}

/// The outcome of converting one file when nothing but the catalog can
/// refuse it: a category that the catalog knows gives the table of the
/// lines that the decoding tool printed, under the name that goes with the
/// file's base name; any other category fails.
pub open spec fn outcome_of(
    catalog: Map<Seq<char>, Seq<FieldView>>,
    category: Seq<char>,
    timestamp: bool,
    base_name: Seq<char>,
    lines: Seq<Seq<u8>>,
) -> Outcome {
    if catalog.contains_key(category) {
        Outcome::Written {
            outfile: output_name_of(base_name),
            table: table_bytes(header_cells(catalog[category], timestamp), lines),
        }
    } else {
        Outcome::Failed
    }
}

/// The directory after one more conversion has ended: a written table
/// replaces what stood under its name, a failure changes nothing.
pub open spec fn record(tables: Map<Seq<char>, Seq<u8>>, outcome: Outcome) -> Map<
    Seq<char>,
    Seq<u8>,
> {
    match outcome {
        Outcome::Written { outfile, table } => tables.insert(outfile, table),
        Outcome::Failed => tables,
    }
}

/// The directory after the conversions have ended in the given order,
/// starting from an empty one.
pub open spec fn after_batch(outcomes: Seq<Outcome>) -> Map<Seq<char>, Seq<u8>>
    decreases outcomes.len(),
{
    if outcomes.len() == 0 {
        Map::empty()
    } else {
        record(after_batch(outcomes.drop_last()), outcomes.last())
    }
}

/// How many of the conversions failed.
pub open spec fn count_failed(outcomes: Seq<Outcome>) -> nat
    decreases outcomes.len(),
{
    if outcomes.len() == 0 {
        0
    } else if outcomes.last() is Failed {
        count_failed(outcomes.drop_last()) + 1
    } else {
        count_failed(outcomes.drop_last())
    }
}

/// No two conversions wrote under the same name.
pub open spec fn distinct_outfiles(outcomes: Seq<Outcome>) -> bool {
    forall|i: int, j: int|
        0 <= i < j < outcomes.len() && outcomes[i] is Written && outcomes[j] is Written
            ==> outcomes[i]->outfile != outcomes[j]->outfile
}

/// Only written tables are in the directory, and each of them is there
/// under its name, where no two share a name.
pub proof fn lemma_directory_holds_what_was_written(outcomes: Seq<Outcome>)
    requires
        distinct_outfiles(outcomes),
    ensures
        forall|name: Seq<char>|
            after_batch(outcomes).contains_key(name) ==> exists|i: int|
                0 <= i < outcomes.len() && #[trigger] outcomes[i] is Written
                    && outcomes[i]->outfile == name,
        forall|i: int|
            0 <= i < outcomes.len() && #[trigger] outcomes[i] is Written ==> after_batch(
                outcomes,
            ).contains_key(outcomes[i]->outfile) && after_batch(outcomes)[outcomes[i]->outfile]
                == outcomes[i]->table,
    decreases outcomes.len(),
{
    if outcomes.len() > 0 {
        let earlier = outcomes.drop_last();
        let last = outcomes.last();
        assert(distinct_outfiles(earlier)) by {
            assert forall|i: int, j: int|
                0 <= i < j < earlier.len() && earlier[i] is Written
                    && earlier[j] is Written implies earlier[i]->outfile
                != earlier[j]->outfile by {
                assert(earlier[i] == outcomes[i] && earlier[j] == outcomes[j]);
            }
        }
        lemma_directory_holds_what_was_written(earlier);
        assert forall|name: Seq<char>| after_batch(outcomes).contains_key(name) implies exists|
            i: int,
        |
            0 <= i < outcomes.len() && #[trigger] outcomes[i] is Written && outcomes[i]->outfile
                == name by {
            if last is Written && last->outfile == name {
                assert(outcomes[outcomes.len() - 1] is Written);
            } else {
                assert(after_batch(earlier).contains_key(name));
                let i = choose|i: int|
                    0 <= i < earlier.len() && #[trigger] earlier[i] is Written
                        && earlier[i]->outfile == name;
                assert(outcomes[i] == earlier[i]);
                assert(outcomes[i] is Written);
            }
        }
        assert forall|i: int|
            0 <= i < outcomes.len() && #[trigger] outcomes[i] is Written implies after_batch(
            outcomes,
        ).contains_key(outcomes[i]->outfile) && after_batch(outcomes)[outcomes[i]->outfile]
            == outcomes[i]->table by {
            if i < earlier.len() {
                assert(outcomes[i] == earlier[i]);
                assert(earlier[i] is Written);
                if last is Written {
                    assert(outcomes[outcomes.len() - 1] is Written);
                    assert(outcomes[i]->outfile != last->outfile);
                }
            }
        }
    }
}

/// A category that the catalog does not know leaves no table, whatever the
/// file and whatever the decoding tool would have printed for it.
pub proof fn lemma_unknown_category_writes_nothing(
    catalog: Map<Seq<char>, Seq<FieldView>>,
    category: Seq<char>,
    timestamp: bool,
    base_name: Seq<char>,
    lines: Seq<Seq<u8>>,
    tables: Map<Seq<char>, Seq<u8>>,
)
    requires
        !catalog.contains_key(category),
    ensures
        outcome_of(catalog, category, timestamp, base_name, lines) is Failed,
        record(tables, outcome_of(catalog, category, timestamp, base_name, lines)) == tables,
{
}

/// Converting a file again, with the same category and timestamp choice and
/// the same output of the decoding tool, leaves the directory as the first
/// conversion left it: the table is written anew with the same bytes.
pub proof fn lemma_converting_again_changes_nothing(
    catalog: Map<Seq<char>, Seq<FieldView>>,
    category: Seq<char>,
    timestamp: bool,
    base_name: Seq<char>,
    lines: Seq<Seq<u8>>,
    tables: Map<Seq<char>, Seq<u8>>,
)
    ensures
        ({
            let outcome = outcome_of(catalog, category, timestamp, base_name, lines);
            record(record(tables, outcome), outcome) == record(tables, outcome)
        }),
{
    let outcome = outcome_of(catalog, category, timestamp, base_name, lines);
    assert(record(record(tables, outcome), outcome) =~= record(tables, outcome));
}

/// A failure is isolated: a batch in which one more file fails, at whatever
/// point, leaves the same tables as the batch without that file.
pub proof fn lemma_failure_leaves_tables_alone(before: Seq<Outcome>, after: Seq<Outcome>)
    ensures
        after_batch(before + seq![Outcome::Failed] + after) == after_batch(before + after),
    decreases after.len(),
{
    let with = before + seq![Outcome::Failed] + after;
    let without = before + after;
    if after.len() == 0 {
        assert(with.drop_last() =~= before);
        assert(without =~= before);
    } else {
        lemma_failure_leaves_tables_alone(before, after.drop_last());
        assert(with.drop_last() =~= before + seq![Outcome::Failed] + after.drop_last());
        assert(without.drop_last() =~= before + after.drop_last());
        assert(with.last() == without.last());
    }
}

/// The batch leaves one table for each file that did not fail: as many
/// tables as files, less the failures, where no two tables share a name.
pub proof fn lemma_one_table_for_each_success(outcomes: Seq<Outcome>)
    requires
        distinct_outfiles(outcomes),
    ensures
        after_batch(outcomes).dom().finite(),
        after_batch(outcomes).dom().len() == outcomes.len() - count_failed(outcomes),
    decreases outcomes.len(),
{
    if outcomes.len() > 0 {
        let earlier = outcomes.drop_last();
        let last = outcomes.last();
        assert(distinct_outfiles(earlier)) by {
            assert forall|i: int, j: int|
                0 <= i < j < earlier.len() && earlier[i] is Written
                    && earlier[j] is Written implies earlier[i]->outfile
                != earlier[j]->outfile by {
                assert(earlier[i] == outcomes[i] && earlier[j] == outcomes[j]);
            }
        }
        lemma_one_table_for_each_success(earlier);
        if last is Written {
            lemma_directory_holds_what_was_written(earlier);
            if after_batch(earlier).contains_key(last->outfile) {
                let i = choose|i: int|
                    0 <= i < earlier.len() && #[trigger] earlier[i] is Written
                        && earlier[i]->outfile == last->outfile;
                assert(outcomes[i] == earlier[i]);
                assert(outcomes[outcomes.len() - 1] == last);
                assert(false);
            }
            assert(after_batch(outcomes).dom() =~= after_batch(earlier).dom().insert(
                last->outfile,
            ));
        }
    } else {
        assert(after_batch(outcomes).dom() =~= Set::<Seq<char>>::empty());
    }
}

/// The order in which the files finish does not matter: two runs in which
/// the same conversions ended the same way, in whatever order each, leave
/// the same tables, where no two tables share a name.
pub proof fn lemma_order_does_not_matter(first: Seq<Outcome>, second: Seq<Outcome>)
    requires
        distinct_outfiles(first),
        distinct_outfiles(second),
        forall|outcome: Outcome| first.contains(outcome) <==> second.contains(outcome),
    ensures
        after_batch(first) == after_batch(second),
{
    lemma_directory_holds_what_was_written(first);
    lemma_directory_holds_what_was_written(second);
    lemma_same_tables(first, second);
    lemma_same_tables(second, first);
    assert(after_batch(first) =~= after_batch(second));
}

/// Every table that the first run left is left by the second one too, with
/// the same content.
proof fn lemma_same_tables(first: Seq<Outcome>, second: Seq<Outcome>)
    requires
        distinct_outfiles(first),
        distinct_outfiles(second),
        forall|outcome: Outcome| first.contains(outcome) ==> second.contains(outcome),
    ensures
        forall|name: Seq<char>| #[trigger]
            after_batch(first).contains_key(name) ==> after_batch(second).contains_key(name)
                && after_batch(second)[name] == after_batch(first)[name],
{
    lemma_directory_holds_what_was_written(first);
    lemma_directory_holds_what_was_written(second);
    assert forall|name: Seq<char>| #[trigger]
        after_batch(first).contains_key(name) implies after_batch(second).contains_key(name)
        && after_batch(second)[name] == after_batch(first)[name] by {
        let i = choose|i: int|
            0 <= i < first.len() && #[trigger] first[i] is Written && first[i]->outfile == name;
        assert(first.contains(first[i]));
        assert(second.contains(first[i]));
        let j = choose|j: int| 0 <= j < second.len() && second[j] == first[i];
        assert(second[j] is Written);
    }
}

} // verus!
