//! Derivation of the full variable set from a metadata record, the merge
//! of derived and raw variables, and the whole pipeline from metadata
//! text and pattern to output filename.
use vstd::prelude::*;

use crate::datetime::{create_vars_from_create_date, date_vars_of};
use crate::filename::{create_vars_from_filename, filename_vars_of};
use crate::metadata::{read_exif_file, record_of};
use crate::template::{fmt_spec, format_filename, FmtOutcome, FormatError};
use crate::vars::Vars;

verus! {

/// The variables derived from a metadata record: the date and time
/// variables of its `CreateDate` field, the filename variables of its
/// `FileName` field, and its `Model` field under the alias key `T2`.
/// A missing source field contributes nothing.
pub open spec fn derived_vars_of(record: Map<Seq<char>, Seq<char>>) -> Map<Seq<char>, Seq<char>> {
    let from_date = if record.contains_key("CreateDate"@) {
        date_vars_of(record["CreateDate"@])
    } else {
        Map::<Seq<char>, Seq<char>>::empty()
    };
    let with_file = if record.contains_key("FileName"@) {
        from_date.union_prefer_right(filename_vars_of(record["FileName"@]))
    } else {
        from_date
    };
    if record.contains_key("Model"@) {
        with_file.insert("T2"@, record["Model"@])
    } else {
        with_file
    }
}

/// The merged variable mapping of a metadata record: the derived
/// variables overlaid with every raw entry, raw winning on collision.
pub open spec fn merged_vars_of(record: Map<Seq<char>, Seq<char>>) -> Map<Seq<char>, Seq<char>> {
    derived_vars_of(record).union_prefer_right(record)
}

/// When derived and raw variables collide on a key, the merged mapping
/// carries the raw value: the source is trusted over the derivation.
pub proof fn lemma_raw_overrides_derived(
    derived: Map<Seq<char>, Seq<char>>,
    raw: Map<Seq<char>, Seq<char>>,
    key: Seq<char>,
)
    requires
        raw.contains_key(key),
    ensures
        derived.union_prefer_right(raw).contains_key(key),
        derived.union_prefer_right(raw)[key] == raw[key],
{
}

/// Derives the full variable set from a parsed metadata record. Never
/// fails, and never mutates the record.
pub fn extend_vars(exif_vars: &Vars) -> (r: Vars)
    ensures
        r@ == derived_vars_of(exif_vars@),
{
    let mut vars = Vars::new();
    if let Some(create_date) = exif_vars.get("CreateDate") {
        let derived = create_vars_from_create_date(create_date.as_str());
        vars.extend(&derived);
        proof {
            assert(vars@ =~= date_vars_of(exif_vars@["CreateDate"@]));
        }
    }
    if let Some(filename) = exif_vars.get("FileName") {
        let derived = create_vars_from_filename(filename.as_str());
        vars.extend(&derived);
    }
    if let Some(model) = exif_vars.get("Model") {
        vars.insert(String::from_str("T2"), model.clone());
    }
    proof {
        assert(vars@ =~= derived_vars_of(exif_vars@));
    }
    vars
}

/// The whole pipeline: parse the metadata text, derive and merge the
/// variables, and substitute them into the pattern.
pub fn make_filename(content: &str, pattern: &str) -> (r: Result<String, FormatError>)
    ensures
        match r {
            Ok(out) => fmt_spec(pattern@, merged_vars_of(record_of(content@))) == FmtOutcome::Done(
                out@,
            ),
            Err(e) => match e {
                FormatError::MissingVar(name) => fmt_spec(
                    pattern@,
                    merged_vars_of(record_of(content@)),
                ) == FmtOutcome::Missing(name@),
                FormatError::UnmatchedBrace => fmt_spec(
                    pattern@,
                    merged_vars_of(record_of(content@)),
                ) == FmtOutcome::Bad,
            },
        },
{
    let exif_vars = match read_exif_file(content) {
        Ok(vars) => vars,
        Err(_) => {
            proof {
                assert(false);
            }
            Vars::new()
        },
    };
    let mut vars = extend_vars(&exif_vars);
    vars.extend(&exif_vars);
    format_filename(pattern, &vars)
}

} // verus!
