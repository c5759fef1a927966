//! Parsing of loosely structured `key: value` metadata text into a
//! metadata record.
//!
//! The text is processed line by line. A line is split at its first colon;
//! key and value are trimmed of surrounding whitespace. Lines without a
//! colon are dropped silently, and a later duplicate key overwrites an
//! earlier one.
use vstd::prelude::*;

use crate::text::{
    idx_of,
    is_space,
    lemma_idx_of,
    lemma_idx_of_is,
    lemma_trim_space_prefix,
    trim_spec,
    trim_str,
};
use crate::vars::Vars;

verus! {

/// The key and value spelled by one metadata line, or `None` for a line
/// without a colon.
pub open spec fn split_line_spec(s: Seq<char>) -> Option<(Seq<char>, Seq<char>)> {
    let i = idx_of(s, ':');
    if i == s.len() {
        None
    } else {
        Some((trim_spec(s.take(i)), trim_spec(s.skip(i + 1))))
    }
}

/// The lines of `s`, split at every line feed. Splitting empty text gives
/// one empty line, which no later step keeps, since an empty line holds
/// no colon.
pub open spec fn lines_of(s: Seq<char>) -> Seq<Seq<char>>
    decreases s.len(),
{
    let i = idx_of(s, '\n');
    if 0 <= i < s.len() {
        seq![s.take(i)] + lines_of(s.skip(i + 1))
    } else {
        seq![s]
    }
}

/// One line folded into a record: insert its binding, or drop the line.
pub open spec fn apply_line(
    m: Map<Seq<char>, Seq<char>>,
    line: Seq<char>,
) -> Map<Seq<char>, Seq<char>> {
    match split_line_spec(line) {
        Some(kv) => m.insert(kv.0, kv.1),
        None => m,
    }
}

/// A sequence of lines folded into a record, first line first, so the
/// last write to a key wins.
pub open spec fn apply_lines(
    m: Map<Seq<char>, Seq<char>>,
    lines: Seq<Seq<char>>,
) -> Map<Seq<char>, Seq<char>>
    decreases lines.len(),
{
    if lines.len() == 0 {
        m
    } else {
        apply_lines(apply_line(m, lines[0]), lines.drop_first())
    }
}

/// The metadata record spelled by raw metadata text.
pub open spec fn record_of(text: Seq<char>) -> Map<Seq<char>, Seq<char>> {
    apply_lines(Map::empty(), lines_of(text))
}

pub proof fn lemma_apply_lines_push(
    m: Map<Seq<char>, Seq<char>>,
    lines: Seq<Seq<char>>,
    line: Seq<char>,
)
    ensures
        apply_lines(m, lines.push(line)) == apply_line(apply_lines(m, lines), line),
    decreases lines.len(),
{
    assert(lines.push(line)[lines.len() as int] == line);
    if lines.len() == 0 {
        assert(lines.push(line)[0] == line);
        assert(lines.push(line).drop_first() =~= Seq::<Seq<char>>::empty());
        assert(apply_lines(apply_line(m, line), Seq::<Seq<char>>::empty()) == apply_line(m, line));
    } else {
        assert(lines.push(line)[0] == lines[0]);
        assert(lines.push(line).drop_first() =~= lines.drop_first().push(line));
        lemma_apply_lines_push(apply_line(m, lines[0]), lines.drop_first(), line);
    }
}

/// A line consisting of whitespace alone. A blank line never holds a
/// colon, so it never contributes an entry.
pub open spec fn is_blank(l: Seq<char>) -> bool {
    forall|j: int| 0 <= j < l.len() ==> is_space(l[j])
}

/// Whether a line holds a colon, and so contributes an entry.
pub open spec fn has_colon(l: Seq<char>) -> bool {
    idx_of(l, ':') < l.len()
}

/// The key a line with a colon contributes: the trimmed text before its
/// first colon.
pub open spec fn line_key(l: Seq<char>) -> Seq<char> {
    trim_spec(l.take(idx_of(l, ':')))
}

/// The value a line with a colon contributes: the trimmed text after its
/// first colon.
pub open spec fn line_value(l: Seq<char>) -> Seq<char> {
    trim_spec(l.skip(idx_of(l, ':') + 1))
}

/// How many of the lines are not blank.
pub open spec fn nonblank_count(lines: Seq<Seq<char>>) -> int
    decreases lines.len(),
{
    if lines.len() == 0 {
        0
    } else {
        nonblank_count(lines.drop_last()) + (if is_blank(lines.last()) {
            0int
        } else {
            1int
        })
    }
}

/// The keys contributed by the non-blank lines.
pub open spec fn keys_of_lines(lines: Seq<Seq<char>>) -> Set<Seq<char>>
    decreases lines.len(),
{
    if lines.len() == 0 {
        Set::empty()
    } else if is_blank(lines.last()) {
        keys_of_lines(lines.drop_last())
    } else {
        keys_of_lines(lines.drop_last()).insert(line_key(lines.last()))
    }
}

/// A line without a colon contributes nothing to the record, so its text
/// never appears as a key.
pub proof fn lemma_line_without_colon_dropped(m: Map<Seq<char>, Seq<char>>, l: Seq<char>)
    requires
        !has_colon(l),
    ensures
        apply_line(m, l) == m,
{
    lemma_idx_of(l, ':');
}

proof fn lemma_blank_line_dropped(m: Map<Seq<char>, Seq<char>>, l: Seq<char>)
    requires
        is_blank(l),
    ensures
        apply_line(m, l) == m,
{
    lemma_idx_of(l, ':');
    if idx_of(l, ':') < l.len() {
        assert(is_space(l[idx_of(l, ':')]));
        assert(!is_space(':'));
    }
}

proof fn lemma_apply_lines_keys(lines: Seq<Seq<char>>)
    requires
        forall|i: int|
            0 <= i < lines.len() && !is_blank(lines[i]) ==> has_colon(#[trigger] lines[i]),
        forall|i: int, j: int|
            0 <= i < j < lines.len() && !is_blank(lines[i]) && !is_blank(lines[j]) ==> line_key(
                lines[i],
            ) != line_key(lines[j]),
    ensures
        apply_lines(Map::empty(), lines).dom() == keys_of_lines(lines),
        keys_of_lines(lines).finite(),
        keys_of_lines(lines).len() == nonblank_count(lines),
        forall|i: int|
            0 <= i < lines.len() && !is_blank(#[trigger] lines[i]) ==> keys_of_lines(
                lines,
            ).contains(line_key(lines[i])),
        forall|i: int|
            0 <= i < lines.len() && !is_blank(#[trigger] lines[i]) ==> apply_lines(
                Map::empty(),
                lines,
            )[line_key(lines[i])] == line_value(lines[i]),
        forall|k: Seq<char>|
            keys_of_lines(lines).contains(k) ==> exists|i: int|
                0 <= i < lines.len() && !is_blank(#[trigger] lines[i]) && line_key(lines[i]) == k,
    decreases lines.len(),
{
    if lines.len() == 0 {
        assert(keys_of_lines(lines) =~= Set::<Seq<char>>::empty());
    } else {
        let front = lines.drop_last();
        let last = lines.last();
        assert(forall|i: int| 0 <= i < front.len() ==> front[i] == lines[i]);
        lemma_apply_lines_keys(front);
        assert(front.push(last) =~= lines);
        lemma_apply_lines_push(Map::empty(), front, last);
        let prev = apply_lines(Map::empty(), front);
        if is_blank(last) {
            lemma_blank_line_dropped(prev, last);
        } else {
            assert(has_colon(last));
            lemma_idx_of(last, ':');
            assert(split_line_spec(last) == Some((line_key(last), line_value(last))));
            assert(apply_lines(Map::empty(), lines) == prev.insert(
                line_key(last),
                line_value(last),
            ));
            assert(!keys_of_lines(front).contains(line_key(last))) by {
                if keys_of_lines(front).contains(line_key(last)) {
                    let i = choose|i: int|
                        0 <= i < front.len() && !is_blank(#[trigger] front[i]) && line_key(
                            front[i],
                        ) == line_key(last);
                    assert(line_key(lines[i]) != line_key(lines[lines.len() - 1]));
                }
            }
            assert(apply_lines(Map::empty(), lines).dom() =~= keys_of_lines(lines));
            assert(forall|i: int|
                0 <= i < front.len() && !is_blank(#[trigger] front[i]) ==> line_key(lines[i])
                    != line_key(last));
        }
    }
}

/// When every non-blank line of the text holds a colon and no two
/// non-blank lines spell the same key, the parsed record holds exactly
/// one entry per non-blank line, keyed by the trimmed text before the
/// line's first colon and carrying the trimmed text after it.
pub proof fn lemma_colon_lines_parse_completely(text: Seq<char>)
    requires
        forall|i: int|
            0 <= i < lines_of(text).len() && !is_blank(lines_of(text)[i]) ==> has_colon(
                #[trigger] lines_of(text)[i],
            ),
        forall|i: int, j: int|
            0 <= i < j < lines_of(text).len() && !is_blank(lines_of(text)[i]) && !is_blank(
                lines_of(text)[j],
            ) ==> line_key(lines_of(text)[i]) != line_key(lines_of(text)[j]),
    ensures
        record_of(text).dom().finite(),
        record_of(text).dom().len() == nonblank_count(lines_of(text)),
        forall|i: int|
            0 <= i < lines_of(text).len() && !is_blank(#[trigger] lines_of(text)[i]) ==> {
                &&& record_of(text).contains_key(line_key(lines_of(text)[i]))
                &&& record_of(text)[line_key(lines_of(text)[i])] == line_value(lines_of(text)[i])
            },
{
    lemma_apply_lines_keys(lines_of(text));
}

/// A well-formed entry for re-serialization: key and value already
/// trimmed, no colon in the key, no line feed in either.
pub open spec fn wf_entry(k: Seq<char>, v: Seq<char>) -> bool {
    &&& trim_spec(k) == k
    &&& trim_spec(v) == v
    &&& forall|j: int| 0 <= j < k.len() ==> k[j] != ':' && k[j] != '\n'
    &&& forall|j: int| 0 <= j < v.len() ==> v[j] != '\n'
}

/// One entry re-serialized as a `key: value` line.
pub open spec fn line_of(k: Seq<char>, v: Seq<char>) -> Seq<char> {
    k + seq![':', ' '] + v
}

/// Entries re-serialized as `key: value` lines joined by line feeds.
pub open spec fn serialize_record(entries: Seq<(Seq<char>, Seq<char>)>) -> Seq<char>
    decreases entries.len(),
{
    if entries.len() == 0 {
        Seq::empty()
    } else if entries.len() == 1 {
        line_of(entries[0].0, entries[0].1)
    } else {
        line_of(entries[0].0, entries[0].1) + seq!['\n'] + serialize_record(entries.drop_first())
    }
}

/// The entries folded into a map, first entry first.
pub open spec fn insert_all(
    m: Map<Seq<char>, Seq<char>>,
    entries: Seq<(Seq<char>, Seq<char>)>,
) -> Map<Seq<char>, Seq<char>>
    decreases entries.len(),
{
    if entries.len() == 0 {
        m
    } else {
        insert_all(m.insert(entries[0].0, entries[0].1), entries.drop_first())
    }
}

proof fn lemma_split_line_of(k: Seq<char>, v: Seq<char>)
    requires
        wf_entry(k, v),
    ensures
        split_line_spec(line_of(k, v)) == Some((k, v)),
{
    let l = line_of(k, v);
    assert(l[k.len() as int] == ':');
    lemma_idx_of_is(l, ':', k.len() as int);
    assert(l.take(k.len() as int) =~= k);
    assert(l.skip(k.len() as int + 1) =~= seq![' '] + v);
    assert(is_space(' '));
    lemma_trim_space_prefix(' ', v);
}

proof fn lemma_serialize_reparse_from(
    m: Map<Seq<char>, Seq<char>>,
    entries: Seq<(Seq<char>, Seq<char>)>,
)
    requires
        forall|i: int| 0 <= i < entries.len() ==> wf_entry(entries[i].0, entries[i].1),
    ensures
        apply_lines(m, lines_of(serialize_record(entries))) == insert_all(m, entries),
    decreases entries.len(),
{
    if entries.len() == 0 {
        let s = serialize_record(entries);
        lemma_idx_of_is(s, '\n', 0);
        assert(lines_of(s) =~= seq![s]);
        lemma_idx_of_is(s, ':', 0);
        assert(seq![s][0] == s);
        assert(seq![s].drop_first() =~= Seq::<Seq<char>>::empty());
        assert(apply_line(m, s) == m);
        assert(apply_lines(m, Seq::<Seq<char>>::empty()) == m);
    } else {
        let k = entries[0].0;
        let v = entries[0].1;
        let l = line_of(k, v);
        lemma_split_line_of(k, v);
        let m1 = m.insert(k, v);
        if entries.len() == 1 {
            lemma_idx_of_is(l, '\n', l.len() as int);
            assert(lines_of(l) =~= seq![l]);
            assert(seq![l][0] == l);
            assert(seq![l].drop_first() =~= Seq::<Seq<char>>::empty());
            assert(apply_line(m, l) == m1);
            assert(apply_lines(m1, Seq::<Seq<char>>::empty()) == m1);
            assert(apply_lines(m, seq![l]) == m1);
            assert(entries.drop_first().len() == 0);
            assert(insert_all(m1, entries.drop_first()) == m1);
        } else {
            let rest = entries.drop_first();
            assert(forall|i: int| 0 <= i < rest.len() ==> rest[i] == entries[i + 1]);
            let s = serialize_record(entries);
            let rs = serialize_record(rest);
            assert(forall|j: int| 0 <= j < l.len() ==> s[j] == l[j]);
            assert(s[l.len() as int] == '\n');
            lemma_idx_of_is(s, '\n', l.len() as int);
            assert(lines_of(s) =~= seq![l] + lines_of(rs)) by {
                assert(s.take(l.len() as int) =~= l);
                assert(s.skip(l.len() as int + 1) =~= rs);
            }
            assert((seq![l] + lines_of(rs))[0] == l);
            assert((seq![l] + lines_of(rs)).drop_first() =~= lines_of(rs));
            lemma_serialize_reparse_from(m1, rest);
            assert(apply_lines(m, lines_of(s)) == apply_lines(m1, lines_of(rs)));
        }
    }
}

proof fn lemma_insert_all_skips(
    m: Map<Seq<char>, Seq<char>>,
    entries: Seq<(Seq<char>, Seq<char>)>,
    k: Seq<char>,
)
    requires
        forall|i: int| 0 <= i < entries.len() ==> (#[trigger] entries[i].0) != k,
    ensures
        insert_all(m, entries).contains_key(k) == m.contains_key(k),
        m.contains_key(k) ==> insert_all(m, entries)[k] == m[k],
    decreases entries.len(),
{
    if entries.len() > 0 {
        let rest = entries.drop_first();
        assert(forall|i: int| 0 <= i < rest.len() ==> (#[trigger] rest[i]) == entries[i + 1]);
        lemma_insert_all_skips(m.insert(entries[0].0, entries[0].1), rest, k);
    }
}

proof fn lemma_insert_all_binds(
    m: Map<Seq<char>, Seq<char>>,
    entries: Seq<(Seq<char>, Seq<char>)>,
)
    requires
        forall|i: int, j: int| 0 <= i < j < entries.len() ==> entries[i].0 != entries[j].0,
    ensures
        forall|i: int|
            0 <= i < entries.len() ==> insert_all(m, entries).contains_key(
                #[trigger] entries[i].0,
            ) && insert_all(m, entries)[entries[i].0] == entries[i].1,
    decreases entries.len(),
{
    if entries.len() > 0 {
        let rest = entries.drop_first();
        let k0 = entries[0].0;
        let v0 = entries[0].1;
        let m1 = m.insert(k0, v0);
        assert(forall|i: int| 0 <= i < rest.len() ==> (#[trigger] rest[i]) == entries[i + 1]);
        assert(forall|i: int, j: int|
            0 <= i < j < rest.len() ==> (#[trigger] rest[i]).0 != (#[trigger] rest[j]).0);
        lemma_insert_all_binds(m1, rest);
        assert(forall|i: int| 0 <= i < rest.len() ==> (#[trigger] rest[i]).0 != k0);
        lemma_insert_all_skips(m1, rest, k0);
        let whole = insert_all(m, entries);
        assert(whole == insert_all(m1, rest));
        assert forall|i: int| 0 <= i < entries.len() implies whole.contains_key(
            #[trigger] entries[i].0,
        ) && whole[entries[i].0] == entries[i].1 by {
            if i == 0 {
                assert(whole.contains_key(k0) == m1.contains_key(k0));
                assert(whole[k0] == m1[k0]);
            } else {
                assert(rest[i - 1] == entries[i]);
                assert(whole.contains_key(rest[i - 1].0) && whole[rest[i - 1].0] == rest[i
                    - 1].1);
            }
        }
    }
}

/// Re-serializing each entry of a record as a `key: value` line and
/// re-parsing the joined lines yields the same record: colon-free lines
/// are the only ones dropped, and a parsed record contains none.
pub proof fn lemma_record_round_trip(
    record: Map<Seq<char>, Seq<char>>,
    entries: Seq<(Seq<char>, Seq<char>)>,
)
    requires
        forall|i: int|
            0 <= i < entries.len() ==> record.contains_key(#[trigger] entries[i].0)
                && record[entries[i].0] == entries[i].1,
        forall|k: Seq<char>|
            record.contains_key(k) ==> exists|i: int|
                0 <= i < entries.len() && (#[trigger] entries[i].0) == k,
        forall|i: int, j: int|
            0 <= i < j < entries.len() ==> entries[i].0 != entries[j].0,
        forall|i: int| 0 <= i < entries.len() ==> wf_entry(entries[i].0, entries[i].1),
    ensures
        record_of(serialize_record(entries)) == record,
{
    lemma_serialize_reparse_from(Map::empty(), entries);
    lemma_insert_all_binds(Map::empty(), entries);
    let parsed = insert_all(Map::<Seq<char>, Seq<char>>::empty(), entries);
    assert forall|k: Seq<char>| parsed.dom().contains(k) == record.dom().contains(k) by {
        if exists|i: int| 0 <= i < entries.len() && (#[trigger] entries[i].0) == k {
            let i = choose|i: int| 0 <= i < entries.len() && (#[trigger] entries[i].0) == k;
            assert(parsed.contains_key(entries[i].0));
            assert(record.contains_key(entries[i].0));
        } else {
            assert(forall|i: int| 0 <= i < entries.len() ==> (#[trigger] entries[i].0) != k);
            lemma_insert_all_skips(Map::<Seq<char>, Seq<char>>::empty(), entries, k);
            assert(!parsed.contains_key(k));
            if record.contains_key(k) {
                let i = choose|i: int| 0 <= i < entries.len() && (#[trigger] entries[i].0) == k;
                assert(false);
            }
        }
    }
    assert(parsed.dom() =~= record.dom());
    assert forall|k: Seq<char>| parsed.dom().contains(k) implies parsed[k] == record[k] by {
        assert(parsed.contains_key(k));
        if exists|i: int| 0 <= i < entries.len() && (#[trigger] entries[i].0) == k {
            let i = choose|i: int| 0 <= i < entries.len() && (#[trigger] entries[i].0) == k;
            assert(parsed[entries[i].0] == entries[i].1);
            assert(record[entries[i].0] == entries[i].1);
        } else {
            assert(forall|i: int| 0 <= i < entries.len() ==> (#[trigger] entries[i].0) != k);
            lemma_insert_all_skips(Map::<Seq<char>, Seq<char>>::empty(), entries, k);
            assert(false);
        }
    }
    assert(parsed =~= record);
}

/// Splits one metadata line at its first colon into a trimmed key and a
/// trimmed value; yields `None` for a line without a colon.
pub fn split_exif_line(s: &str) -> (r: Option<(String, String)>)
    ensures
        match r {
            Some(kv) => split_line_spec(s@) == Some((kv.0@, kv.1@)),
            None => split_line_spec(s@) is None,
        },
{
    let n = s.unicode_len();
    let mut i: usize = 0;
    while i < n && s.get_char(i) != ':'
        invariant
            n == s@.len(),
            i <= n,
            forall|j: int| 0 <= j < i ==> s@[j] != ':',
        decreases n - i,
    {
        i += 1;
    }
    proof {
        lemma_idx_of_is(s@, ':', i as int);
    }
    if i == n {
        None
    } else {
        let key = trim_str(s.substring_char(0, i));
        let value = trim_str(s.substring_char(i + 1, n));
        proof {
            assert(key@ == trim_spec(s@.take(i as int)));
            assert(value@ == trim_spec(s@.skip(i as int + 1)));
        }
        Some((String::from_str(key), String::from_str(value)))
    }
}

/// Parses the full text of a metadata file into a metadata record. Never
/// fails: malformed lines are dropped.
pub fn read_exif_file(content: &str) -> (r: Result<Vars, String>)
    ensures
        r matches Ok(vars) && vars@ == record_of(content@),
{
    let n = content.unicode_len();
    let mut vars = Vars::new();
    let ghost mut done: Seq<Seq<char>> = Seq::empty();
    let mut i: usize = 0;
    let mut more = true;
    proof {
        assert(content@.skip(0) =~= content@);
        assert(done + lines_of(content@) =~= lines_of(content@));
    }
    while more
        invariant
            n == content@.len(),
            i <= n,
            more ==> lines_of(content@) =~= done + lines_of(content@.skip(i as int)),
            !more ==> lines_of(content@) =~= done,
            vars@ == apply_lines(Map::empty(), done),
        decreases n - i, (if more {
            1int
        } else {
            0int
        }),
    {
        let ghost rest = content@.skip(i as int);
        let mut j: usize = i;
        while j < n && content.get_char(j) != '\n'
            invariant
                n == content@.len(),
                i <= j <= n,
                forall|k: int| i <= k < j ==> content@[k] != '\n',
            decreases n - j,
        {
            j += 1;
        }
        proof {
            assert(forall|k: int| 0 <= k < j - i ==> rest[k] == content@[k + i]);
            lemma_idx_of_is(rest, '\n', j - i);
        }
        let line = content.substring_char(i, j);
        proof {
            assert(line@ =~= rest.take(j - i));
        }
        match split_exif_line(line) {
            Some(kv) => {
                vars.insert(kv.0, kv.1);
            },
            None => {
            },
        }
        proof {
            lemma_apply_lines_push(Map::empty(), done, line@);
            done = done.push(line@);
        }
        if j == n {
            proof {
                assert(lines_of(rest) =~= seq![rest]);
                assert(rest =~= line@);
            }
            more = false;
        } else {
            proof {
                assert(lines_of(rest) =~= seq![rest.take(j - i)] + lines_of(
                    rest.skip(j - i + 1),
                ));
                assert(rest.skip(j - i + 1) =~= content@.skip(j as int + 1));
            }
            i = j + 1;
        }
    }
    Ok(vars)
}

} // verus!
