//! Substitution of `{name}` placeholders in a user pattern.
//!
//! The pattern is scanned in a single pass. `{name}` is replaced by the
//! value bound to `name`; the doubled braces `{{` and `}}` stand for
//! literal braces; any other unmatched brace is an error, as is a
//! placeholder whose name is not bound. On error no partial output is
//! produced.
use vstd::prelude::*;

use crate::text::{idx_of, lemma_idx_of_is};
use crate::vars::Vars;

verus! {

/// What substituting a pattern yields: the fully substituted text, the
/// name of the first unbound placeholder, or a complaint about an
/// unmatched brace.
pub enum FmtOutcome {
    Done(Seq<char>),
    Missing(Seq<char>),
    Bad,
}

/// An error from pattern substitution: a placeholder name absent from the
/// mapping, or an unmatched brace.
#[derive(Debug)]
pub enum FormatError {
    MissingVar(String),
    UnmatchedBrace,
}

/// `pre` prepended to the output of `r`, when `r` carries output.
pub open spec fn prepend(pre: Seq<char>, r: FmtOutcome) -> FmtOutcome {
    match r {
        FmtOutcome::Done(s) => FmtOutcome::Done(pre + s),
        _ => r,
    }
}

/// The outcome of substituting `vars` into the pattern `p`: consume one
/// literal character, escape or placeholder, then the rest.
pub open spec fn fmt_spec(p: Seq<char>, vars: Map<Seq<char>, Seq<char>>) -> FmtOutcome
    decreases p.len(),
{
    if p.len() == 0 {
        FmtOutcome::Done(Seq::empty())
    } else if p[0] == '{' {
        if p.len() >= 2 && p[1] == '{' {
            prepend(seq!['{'], fmt_spec(p.skip(2), vars))
        } else {
            let close = idx_of(p, '}');
            if !(0 <= close < p.len()) {
                FmtOutcome::Bad
            } else {
                let name = p.subrange(1, close);
                if vars.contains_key(name) {
                    prepend(vars[name], fmt_spec(p.skip(close + 1), vars))
                } else {
                    FmtOutcome::Missing(name)
                }
            }
        }
    } else if p[0] == '}' {
        if p.len() >= 2 && p[1] == '}' {
            prepend(seq!['}'], fmt_spec(p.skip(2), vars))
        } else {
            FmtOutcome::Bad
        }
    } else {
        prepend(seq![p[0]], fmt_spec(p.drop_first(), vars))
    }
}

proof fn lemma_prepend_assoc(a: Seq<char>, b: Seq<char>, r: FmtOutcome)
    ensures
        prepend(a, prepend(b, r)) == prepend(a + b, r),
{
    match r {
        FmtOutcome::Done(s) => {
            assert(a + (b + s) =~= (a + b) + s);
        },
        _ => {},
    }
}

/// The placeholder names a pattern refers to.
pub open spec fn pattern_refs(p: Seq<char>) -> Set<Seq<char>>
    decreases p.len(),
{
    if p.len() == 0 {
        Set::empty()
    } else if p[0] == '{' {
        if p.len() >= 2 && p[1] == '{' {
            pattern_refs(p.skip(2))
        } else {
            let close = idx_of(p, '}');
            if !(0 <= close < p.len()) {
                Set::empty()
            } else {
                pattern_refs(p.skip(close + 1)).insert(p.subrange(1, close))
            }
        }
    } else if p[0] == '}' {
        if p.len() >= 2 && p[1] == '}' {
            pattern_refs(p.skip(2))
        } else {
            Set::empty()
        }
    } else {
        pattern_refs(p.drop_first())
    }
}

/// Substitution succeeds only when every placeholder name the pattern
/// refers to is bound in the mapping: a pattern referencing an absent key
/// fails, and since a failing outcome carries no text, no partially
/// substituted output exists.
pub proof fn lemma_done_needs_all_refs(p: Seq<char>, vars: Map<Seq<char>, Seq<char>>)
    ensures
        fmt_spec(p, vars) matches FmtOutcome::Done(_) ==> forall|name: Seq<char>|
            pattern_refs(p).contains(name) ==> vars.contains_key(name),
    decreases p.len(),
{
    if p.len() == 0 {
    } else if p[0] == '{' {
        if p.len() >= 2 && p[1] == '{' {
            lemma_done_needs_all_refs(p.skip(2), vars);
        } else {
            let close = idx_of(p, '}');
            if 0 <= close < p.len() {
                lemma_done_needs_all_refs(p.skip(close + 1), vars);
            }
        }
    } else if p[0] == '}' {
        if p.len() >= 2 && p[1] == '}' {
            lemma_done_needs_all_refs(p.skip(2), vars);
        }
    } else {
        lemma_done_needs_all_refs(p.drop_first(), vars);
    }
}

/// A pattern that refers to a name absent from the mapping never
/// substitutes to output text.
pub proof fn lemma_missing_ref_fails(
    p: Seq<char>,
    vars: Map<Seq<char>, Seq<char>>,
    name: Seq<char>,
)
    requires
        pattern_refs(p).contains(name),
        !vars.contains_key(name),
    ensures
        !(fmt_spec(p, vars) matches FmtOutcome::Done(_)),
{
    lemma_done_needs_all_refs(p, vars);
}

/// Substitutes the merged variables into the user pattern, or reports the
/// first failure. An `Err` carries no partial output.
pub fn format_filename(pattern: &str, vars: &Vars) -> (r: Result<String, FormatError>)
    ensures
        match r {
            Ok(out) => fmt_spec(pattern@, vars@) == FmtOutcome::Done(out@),
            Err(e) => match e {
                FormatError::MissingVar(name) => fmt_spec(pattern@, vars@)
                    == FmtOutcome::Missing(name@),
                FormatError::UnmatchedBrace => fmt_spec(pattern@, vars@) == FmtOutcome::Bad,
            },
        },
{
    let n = pattern.unicode_len();
    let mut out = String::new();
    let mut i: usize = 0;
    proof {
        assert(pattern@.skip(0) =~= pattern@);
        assert(Seq::<char>::empty() + pattern@ =~= pattern@);
    }
    while i < n
        invariant
            n == pattern@.len(),
            i <= n,
            fmt_spec(pattern@, vars@) == prepend(out@, fmt_spec(pattern@.skip(i as int), vars@)),
        decreases n - i,
    {
        let ghost suffix = pattern@.skip(i as int);
        let c = pattern.get_char(i);
        proof {
            assert(suffix[0] == pattern@[i as int]);
        }
        if c == '{' {
            if i + 1 < n && pattern.get_char(i + 1) == '{' {
                proof {
                    reveal_strlit("{");
                    assert(suffix[1] == '{');
                    assert(suffix.skip(2) =~= pattern@.skip(i as int + 2));
                    lemma_prepend_assoc(out@, seq!['{'], fmt_spec(suffix.skip(2), vars@));
                    assert(out@ + "{"@ =~= out@ + seq!['{']);
                }
                out.append("{");
                i += 2;
            } else {
                let mut close: usize = i + 1;
                while close < n && pattern.get_char(close) != '}'
                    invariant
                        n == pattern@.len(),
                        i + 1 <= close <= n,
                        forall|k: int| i < k < close ==> pattern@[k] != '}',
                    decreases n - close,
                {
                    close += 1;
                }
                proof {
                    assert(forall|k: int| 0 <= k < close - i ==> suffix[k] == pattern@[k + i]);
                    lemma_idx_of_is(suffix, '}', close - i);
                }
                if close == n {
                    proof {
                        assert(fmt_spec(suffix, vars@) == FmtOutcome::Bad);
                    }
                    return Err(FormatError::UnmatchedBrace);
                }
                let name = pattern.substring_char(i + 1, close);
                proof {
                    assert(name@ =~= suffix.subrange(1, close - i));
                }
                match vars.get(name) {
                    Some(value) => {
                        proof {
                            assert(suffix.skip(close - i + 1) =~= pattern@.skip(
                                close as int + 1,
                            ));
                            lemma_prepend_assoc(
                                out@,
                                vars@[name@],
                                fmt_spec(suffix.skip(close - i + 1), vars@),
                            );
                        }
                        out.append(value.as_str());
                        i = close + 1;
                    },
                    None => {
                        proof {
                            assert(fmt_spec(suffix, vars@) == FmtOutcome::Missing(name@));
                        }
                        return Err(FormatError::MissingVar(String::from_str(name)));
                    },
                }
            }
        } else if c == '}' {
            if i + 1 < n && pattern.get_char(i + 1) == '}' {
                proof {
                    reveal_strlit("}");
                    assert(suffix[1] == '}');
                    assert(suffix.skip(2) =~= pattern@.skip(i as int + 2));
                    lemma_prepend_assoc(out@, seq!['}'], fmt_spec(suffix.skip(2), vars@));
                    assert(out@ + "}"@ =~= out@ + seq!['}']);
                }
                out.append("}");
                i += 2;
            } else {
                proof {
                    assert(fmt_spec(suffix, vars@) == FmtOutcome::Bad);
                }
                return Err(FormatError::UnmatchedBrace);
            }
        } else {
            let piece = pattern.substring_char(i, i + 1);
            proof {
                assert(piece@ =~= seq![suffix[0]]);
                assert(suffix.drop_first() =~= pattern@.skip(i as int + 1));
                lemma_prepend_assoc(out@, seq![suffix[0]], fmt_spec(suffix.drop_first(), vars@));
            }
            out.append(piece);
            i += 1;
        }
    }
    proof {
        assert(pattern@.skip(n as int) =~= Seq::<char>::empty());
        assert(out@ + Seq::<char>::empty() =~= out@);
    }
    Ok(out)
}

} // verus!
