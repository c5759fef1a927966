//! Decomposition of an original filename into base name, trailing numeric
//! sequence and extension.
//!
//! A filename fits the shape when it ends in a dot followed by one or more
//! ASCII alphanumeric characters (the extension), and what stands before
//! that last dot is non-empty and does not consist of digits alone. The
//! trailing run of digits before the dot, possibly empty, is the sequence
//! number; the rest, which then ends in a non-digit, is the base name.
use vstd::prelude::*;

use crate::text::{
    alnum_char_test,
    digit_char_test,
    is_alnum_char,
    is_digit_char,
    last_idx_of,
    lemma_last_idx_of_is,
};
use crate::vars::Vars;

verus! {

/// Index of the first character of the trailing digit run of `s`, or
/// `s.len()` if `s` does not end in a digit.
pub open spec fn digit_suffix_start(s: Seq<char>) -> int
    decreases s.len(),
{
    if s.len() == 0 {
        0
    } else if is_digit_char(s.last()) {
        digit_suffix_start(s.drop_last())
    } else {
        s.len() as int
    }
}

pub proof fn lemma_digit_suffix_start_is(s: Seq<char>, k: int)
    requires
        0 <= k <= s.len(),
        forall|j: int| k <= j < s.len() ==> is_digit_char(s[j]),
        k > 0 ==> !is_digit_char(s[k - 1]),
    ensures
        digit_suffix_start(s) == k,
    decreases s.len(),
{
    if s.len() != 0 && is_digit_char(s.last()) {
        lemma_digit_suffix_start_is(s.drop_last(), k);
    }
}

/// The decomposition of a filename into base name, sequence digits and
/// extension, or `None` when the filename does not fit the shape.
pub open spec fn split_filename(s: Seq<char>) -> Option<(Seq<char>, Seq<char>, Seq<char>)> {
    let dot = last_idx_of(s, '.');
    if dot < 0 {
        None
    } else {
        let ext = s.skip(dot + 1);
        let head = s.take(dot);
        let run = digit_suffix_start(head);
        if ext.len() == 0 || !(forall|k: int| 0 <= k < ext.len() ==> is_alnum_char(ext[k])) {
            None
        } else if run == 0 {
            None
        } else {
            Some((head.take(run), head.skip(run), ext))
        }
    }
}

/// The derived filename variables of a raw filename string, under the
/// fixed keys `f` (base name), `r` (sequence digits, possibly empty) and
/// `e` (extension): empty when the filename does not fit the shape.
pub open spec fn filename_vars_of(s: Seq<char>) -> Map<Seq<char>, Seq<char>> {
    match split_filename(s) {
        Some(parts) => Map::empty().insert("f"@, parts.0).insert("r"@, parts.1).insert(
            "e"@,
            parts.2,
        ),
        None => Map::empty(),
    }
}

/// Derives the filename variables from the raw `FileName` value.
pub fn create_vars_from_filename(filename: &str) -> (r: Vars)
    ensures
        r@ == filename_vars_of(filename@),
{
    let n = filename.unicode_len();
    let mut dot: usize = n;
    let mut found_dot = false;
    while !found_dot && dot > 0
        invariant
            n == filename@.len(),
            dot <= n,
            forall|j: int| dot < j < n ==> filename@[j] != '.',
            !found_dot ==> dot == n || filename@[dot as int] != '.',
            found_dot ==> dot < n && filename@[dot as int] == '.',
        decreases (if found_dot {
            0int
        } else {
            1int
        }), dot,
    {
        dot -= 1;
        if filename.get_char(dot) == '.' {
            found_dot = true;
        }
    }
    if !found_dot {
        proof {
            lemma_last_idx_of_is(filename@, '.', -1);
        }
        return Vars::new();
    }
    proof {
        lemma_last_idx_of_is(filename@, '.', dot as int);
    }
    if dot + 1 == n {
        return Vars::new();
    }
    let ghost ext = filename@.skip(dot as int + 1);
    let mut k: usize = dot + 1;
    while k < n
        invariant
            n == filename@.len(),
            dot + 1 <= k <= n,
            last_idx_of(filename@, '.') == dot as int,
            ext == filename@.skip(dot as int + 1),
            forall|j: int| dot + 1 <= j < k ==> is_alnum_char(filename@[j]),
        decreases n - k,
    {
        if !alnum_char_test(filename.get_char(k)) {
            proof {
                assert(ext[k - dot - 1] == filename@[k as int]);
                assert(!is_alnum_char(ext[k - dot - 1]));
            }
            return Vars::new();
        }
        k += 1;
    }
    proof {
        assert(forall|j: int| 0 <= j < ext.len() ==> ext[j] == filename@[j + dot + 1]
            && is_alnum_char(ext[j]));
    }
    let ghost head = filename@.take(dot as int);
    let mut run: usize = dot;
    while run > 0 && digit_char_test(filename.get_char(run - 1))
        invariant
            n == filename@.len(),
            dot <= n,
            run <= dot,
            forall|j: int| run <= j < dot ==> is_digit_char(filename@[j]),
        decreases run,
    {
        run -= 1;
    }
    proof {
        assert(forall|j: int| 0 <= j < head.len() ==> head[j] == filename@[j]);
        lemma_digit_suffix_start_is(head, run as int);
    }
    if run == 0 {
        return Vars::new();
    }
    let base = filename.substring_char(0, run);
    let digits = filename.substring_char(run, dot);
    let extension = filename.substring_char(dot + 1, n);
    proof {
        assert(base@ =~= head.take(run as int));
        assert(digits@ =~= head.skip(run as int));
        assert(extension@ =~= ext);
    }
    let mut vars = Vars::new();
    vars.insert(String::from_str("f"), String::from_str(base));
    vars.insert(String::from_str("r"), String::from_str(digits));
    vars.insert(String::from_str("e"), String::from_str(extension));
    vars
}

} // verus!
