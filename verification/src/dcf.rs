//! Debian control files, the format of R's `DESCRIPTION` and `PACKAGES`.

use vstd::prelude::*;

use crate::strings;
use crate::strmap::StrMap;
use crate::text;

verus! {

broadcast use crate::strmap::group_deep;

/// What the lines read so far come to.
pub struct DcfProgress {
    /// The fields with their values.
    pub fields: Map<Seq<char>, Seq<char>>,
    /// The field that an indented line would go on with.
    pub current: Option<Seq<char>>,
}

/// `line` is indented.
pub open spec fn is_indented(line: Seq<char>) -> bool {
    line.len() > 0 && (line[0] == ' ' || line[0] == '\t')
}

/// A value with one more line: the two are set apart by a space.
pub open spec fn continued(value: Seq<char>, line: Seq<char>) -> Seq<char> {
    if value.len() == 0 {
        strings::trim(line)
    } else {
        value + seq![' '] + strings::trim(line)
    }
}

/// One line more. An indented line goes on with the current field, a line with a
/// colon starts a field, and any other line ends the current one.
pub open spec fn dcf_line(p: DcfProgress, line: Seq<char>) -> DcfProgress {
    if is_indented(line) {
        match p.current {
            Some(key) => DcfProgress {
                fields: p.fields.insert(key, continued(p.fields[key], line)),
                current: p.current,
            },
            None => p,
        }
    } else {
        match strings::split_once(line, ':') {
            Some((key, value)) => DcfProgress {
                fields: p.fields.insert(strings::trim(key), strings::trim(value)),
                current: Some(strings::trim(key)),
            },
            None => DcfProgress { fields: p.fields, current: None },
        }
    }
}

/// What the lines come to.
pub open spec fn dcf_lines(lines: Seq<Seq<char>>) -> DcfProgress
    decreases lines.len(),
{
    if lines.len() == 0 {
        DcfProgress { fields: Map::empty(), current: None }
    } else {
        dcf_line(dcf_lines(lines.drop_last()), lines.last())
    }
}

/// The fields of a control file with their values.
pub open spec fn dcf_fields(content: Seq<char>) -> Map<Seq<char>, Seq<char>> {
    dcf_lines(strings::lines(content)).fields
}

/// The fields of a control file with their values.
pub fn parse_dcf_fields(content: &str) -> (r: StrMap<String>)
    ensures
        r.deep_view() == dcf_fields(content@),
{
    let cs = text::chars_of(content);
    let lines = text::lines(cs.as_slice());
    let ghost all = text::views(lines@);
    let mut fields: StrMap<String> = StrMap::new();
    let mut current: Option<String> = None;
    let mut i: usize = 0;
    assert(all.take(0) =~= seq![]);
    while i < lines.len()
        invariant
            i <= lines@.len(),
            all == text::views(lines@),
            fields.deep_view() == dcf_lines(all.take(i as int)).fields,
            current.deep_view() == dcf_lines(all.take(i as int)).current,
            current matches Some(k) ==> fields@.contains_key(k@),
        decreases lines@.len() - i,
    {
        let line = lines[i];
        assert(all.take(i + 1).drop_last() =~= all.take(i as int));
        assert(all.take(i + 1).last() == line@);
        if line.len() > 0 && (line[0] == ' ' || line[0] == '\t') {
            if let Some(key) = &current {
                let more = text::string_of(text::trim(line));
                let value = match fields.get(key.as_str()) {
                    Some(v) => {
                        if v.as_str().is_empty() {
                            more
                        } else {
                            let mut value = v.clone();
                            value.push(' ');
                            value.append(more.as_str());
                            assert(value@ =~= v@ + seq![' '] + more@);
                            value
                        }
                    },
                    None => more,
                };
                fields.insert(key.clone(), value);
            }
        } else {
            match text::split_once(line, ':') {
                Some((key, value)) => {
                    let k = text::string_of(text::trim(key));
                    let v = text::string_of(text::trim(value));
                    current = Some(k.clone());
                    fields.insert(k, v);
                },
                None => {
                    current = None;
                },
            }
        }
        i += 1;
    }
    assert(all.take(i as int) =~= all);
    fields
}

/// A line `key: value` that is not indented sets the field, whatever it was before, and
/// leaves the other fields as they were.
pub proof fn law_line_sets_a_field(
    p: DcfProgress,
    key: Seq<char>,
    gap: Seq<char>,
    value: Seq<char>,
    after: Seq<char>,
)
    requires
        key.len() > 0,
        strings::is_trimmed(key),
        !key.contains(':'),
        strings::all_white(gap),
        strings::all_white(after),
        strings::is_trimmed(value),
    ensures
        ({
            let q = dcf_line(p, key + seq![':'] + (gap + value + after));
            &&& q.fields == p.fields.insert(key, value)
            &&& q.current == Some(key)
        }),
{
    let tail = gap + value + after;
    let line = key + seq![':'] + tail;
    assert(line[0] == key[0]);
    assert(!is_indented(line));
    assert forall|j: int| 0 <= j < key.len() implies line[j] != ':' by {
        assert(key.contains(key[j]));
        assert(line[j] == key[j]);
    }
    strings::lemma_first_at_is(line, ':', key.len() as int);
    assert(line.take(key.len() as int) =~= key);
    assert(line.skip(key.len() as int + 1) =~= tail);
    strings::lemma_trim_trimmed(key);
    strings::law_trim_takes_white_space_away(gap, value, after);
}

/// An indented line goes on with the value of the field before it, set apart by one
/// space, or is the value where there is none yet. Other fields stay as they were.
pub proof fn law_indented_line_goes_on(
    p: DcfProgress,
    key: Seq<char>,
    indent: char,
    gap: Seq<char>,
    more: Seq<char>,
    after: Seq<char>,
)
    requires
        p.current == Some(key),
        indent == ' ' || indent == '\t',
        strings::all_white(gap),
        strings::all_white(after),
        strings::is_trimmed(more),
    ensures
        ({
            let q = dcf_line(p, seq![indent] + gap + more + after);
            let was = p.fields[key];
            &&& q.current == Some(key)
            &&& q.fields == p.fields.insert(
                key,
                if was.len() == 0 {
                    more
                } else {
                    was + seq![' '] + more
                },
            )
        }),
{
    let lead = seq![indent] + gap;
    let line = lead + more + after;
    assert(line[0] == indent);
    assert(strings::all_white(lead));
    strings::law_trim_takes_white_space_away(lead, more, after);
}

/// A line that is neither indented nor holds a colon ends the field, and an indented
/// line after it goes on with none.
pub proof fn law_other_lines_change_nothing(p: DcfProgress, line: Seq<char>)
    requires
        if line.len() > 0 && (line[0] == ' ' || line[0] == '\t') {
            p.current is None
        } else {
            !line.contains(':')
        },
    ensures
        dcf_line(p, line).fields == p.fields,
        dcf_line(p, line).current is None,
{
    if !is_indented(line) {
        assert forall|j: int| 0 <= j < line.len() implies line[j] != ':' by {
            assert(line.contains(line[j]));
        }
        strings::lemma_first_at_is(line, ':', line.len() as int);
    }
}

/// The lines of a control file are read one after another, from nothing on.
pub proof fn law_lines_are_read_in_order(lines: Seq<Seq<char>>, line: Seq<char>)
    ensures
        dcf_lines(lines.push(line)) == dcf_line(dcf_lines(lines), line),
        dcf_lines(Seq::<Seq<char>>::empty()).fields == Map::<Seq<char>, Seq<char>>::empty(),
        dcf_lines(Seq::<Seq<char>>::empty()).current is None,
{
    assert(lines.push(line).drop_last() =~= lines);
}

} // verus!
