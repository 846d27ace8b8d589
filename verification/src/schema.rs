//! The schema pre-check applied before a columnar file is scanned: a
//! column stored as a fixed-size list is rejected with an explanatory
//! message, since the engine does not fully support such columns.

use vstd::prelude::*;

verus! {

use crate::strutil::{is_substring, str_contains};

/// One column of a stored file's schema, as the container describes it.
pub struct SchemaField {
    pub name: String,
    pub physical_type: String,
    pub converted_type: String,
}

/// Whether a stored column is a fixed-size list: its converted type
/// mentions `LIST` while its physical type mentions `Fixed`.
pub open spec fn field_incompatible(physical: Seq<char>, converted: Seq<char>) -> bool {
    is_substring(converted, "LIST"@) && is_substring(physical, "Fixed"@)
}

/// The rejection message for a fixed-size-list column.
pub open spec fn incompat_message(name: Seq<char>) -> Seq<char> {
    "Column '"@ + name
        + "' contains Array/FixedSizeList type which is not fully supported. Please convert Array columns to List (variable-size) in your data generation script. Remove the .list.to_array() conversion or use regular lists instead of arrays."@
}

/// Checks a stored schema for unsupported column layouts: accepts it when
/// no column is a fixed-size list, and otherwise rejects the first such
/// column with its message.
pub fn check_schema_compatibility(fields: &Vec<SchemaField>) -> (r: Result<(), String>)
    ensures
        match r {
            Ok(_) => forall|i: int|
                0 <= i < fields@.len() ==> !field_incompatible(
                    (#[trigger] fields@[i]).physical_type@,
                    fields@[i].converted_type@,
                ),
            Err(m) => exists|i: int|
                0 <= i < fields@.len() && field_incompatible(
                    (#[trigger] fields@[i]).physical_type@,
                    fields@[i].converted_type@,
                ) && m@ == incompat_message(fields@[i].name@) && (forall|j: int|
                    0 <= j < i ==> !field_incompatible(
                        (#[trigger] fields@[j]).physical_type@,
                        fields@[j].converted_type@,
                    )),
        },
{
    let mut i: usize = 0;
    while i < fields.len()
        invariant
            i <= fields@.len(),
            forall|x: int|
                0 <= x < i ==> !field_incompatible(
                    (#[trigger] fields@[x]).physical_type@,
                    fields@[x].converted_type@,
                ),
        decreases fields@.len() - i,
    {
        let f = &fields[i];
        if str_contains(f.converted_type.as_str(), "LIST") && str_contains(
            f.physical_type.as_str(),
            "Fixed",
        ) {
            let mut m = String::from_str("Column '");
            m.append(f.name.as_str());
            m.append(
                "' contains Array/FixedSizeList type which is not fully supported. Please convert Array columns to List (variable-size) in your data generation script. Remove the .list.to_array() conversion or use regular lists instead of arrays.",
            );
            proof {
                assert(m@ == incompat_message(fields@[i as int].name@));
            }
            return Err(m);
        }
        i = i + 1;
    }
    Ok(())
}

} // verus!
