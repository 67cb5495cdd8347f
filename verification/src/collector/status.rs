//! The memory figures of a process status file.
use vstd::prelude::*;
use vstd::string::*;
use crate::rate::capped64;
use crate::text::{
    chars_of, find_char, first_index, lemma_first_index, parse_unsigned, part, trim, trimmed,
    unsigned_of,
};

verus! {

/// A line without the carriage return that belongs to its end.
pub open spec fn without_return(line: Seq<char>) -> Seq<char> {
    if line.len() > 0 && line.last() == '\r' {
        line.drop_last()
    } else {
        line
    }
}

/// The first line of a text, without its end. The end is a newline, which a
/// carriage return may precede; a text may also end without one.
pub open spec fn first_line(s: Seq<char>) -> Seq<char> {
    let k = first_index(s, '\n');
    if k < s.len() {
        without_return(s.take(k))
    } else {
        s
    }
}

/// What follows the first line of a text.
pub open spec fn after_line(s: Seq<char>) -> Seq<char> {
    let k = first_index(s, '\n');
    if k < s.len() {
        s.skip(k + 1)
    } else {
        Seq::empty()
    }
}

/// What stands in a line between `name` and the unit `kB` at its end.
pub open spec fn field_in(line: Seq<char>, name: Seq<char>) -> Option<Seq<char>> {
    if line.len() >= name.len() && line.take(name.len() as int) == name && line.len() - name.len()
        >= 2 && line.skip(line.len() - 2) == seq!['k', 'B'] {
        Some(line.subrange(name.len() as int, line.len() - 2))
    } else {
        None
    }
}

/// The field of that name in the first line that has it.
pub open spec fn find_field(s: Seq<char>, name: Seq<char>) -> Option<Seq<char>>
    decreases s.len(),
{
    if s.len() == 0 {
        None
    } else {
        proof {
            lemma_first_index(s, '\n');
        }
        match field_in(first_line(s), name) {
            Some(value) => Some(value),
            None => find_field(after_line(s), name),
        }
    }
}

/// The bytes of the field of that name, which is in units of 1024.
pub open spec fn field_bytes(s: Seq<char>, name: Seq<char>) -> Option<u64> {
    match find_field(s, name) {
        Some(value) => match unsigned_of(trimmed(value)) {
            Some(kb) => Some(capped64((kb * 1024) as nat)),
            None => None,
        },
        None => None,
    }
}

/// The anonymous resident memory and the swapped memory of a process.
pub open spec fn footprint_of(s: Seq<char>) -> Option<u64> {
    match field_bytes(s, "RssAnon:"@) {
        Some(anon) => match field_bytes(s, "VmSwap:"@) {
            Some(swap) => Some(capped64((anon + swap) as nat)),
            None => Some(anon),
        },
        None => None,
    }
}

/// What stands in a line between `name` and the unit at its end.
fn read_field(line: &Vec<char>, name: &Vec<char>) -> (r: Option<Vec<char>>)
    ensures
        r is Some == field_in(line@, name@) is Some,
        r is Some ==> r->0@ == field_in(line@, name@)->0,
{
    let n: usize = line.len();
    if n < name.len() || n - name.len() < 2 {
        return None;
    }
    for i in 0..name.len()
        invariant
            n == line@.len(),
            name@.len() <= n,
            forall|j: int| 0 <= j < i ==> line@[j] == name@[j],
    {
        if line[i] != name[i] {
            proof {
                assert(line@.take(name@.len() as int)[i as int] != name@[i as int]);
            }
            return None;
        }
    }
    assert(line@.take(name@.len() as int) =~= name@);
    let ghost end = line@.skip(n - 2);
    if line[n - 2] != 'k' || line[n - 1] != 'B' {
        proof {
            assert(end[0] == line@[n - 2] && end[1] == line@[n - 1]);
            if end == seq!['k', 'B'] {
                assert(end[0] == 'k' && end[1] == 'B');
            }
        }
        return None;
    }
    assert(line@.skip(n - 2) =~= seq!['k', 'B']);
    Some(part(line, name.len(), n - 2))
}

/// The bytes of the field of that name.
fn read_bytes(status: &Vec<char>, name: &Vec<char>) -> (r: Option<u64>)
    ensures
        r == field_bytes(status@, name@),
{
    let mut rest = part(status, 0, status.len());
    assert(rest@ =~= status@);
    while rest.len() > 0
        invariant
            find_field(status@, name@) == find_field(rest@, name@),
        decreases rest@.len(),
    {
        let k: usize = find_char(&rest, '\n');
        proof {
            lemma_first_index(rest@, '\n');
        }
        let mut end: usize = k;
        if k < rest.len() && end > 0 && rest[end - 1] == '\r' {
            end -= 1;
        }
        let line = part(&rest, 0, end);
        assert(line@ =~= first_line(rest@));
        if let Some(value) = read_field(&line, name) {
            return match parse_unsigned(&trim(&value)) {
                Some(kb) => {
                    let bytes: u128 = kb as u128 * 1024;
                    if bytes > u64::MAX as u128 {
                        Some(u64::MAX)
                    } else {
                        Some(bytes as u64)
                    }
                },
                None => None,
            };
        }
        let from: usize = if k < rest.len() {
            k + 1
        } else {
            k
        };
        let tail = part(&rest, from, rest.len());
        assert(tail@ =~= after_line(rest@));
        rest = tail;
    }
    None
}

/// The memory that a process really holds, from its status file: anonymous
/// resident memory and swapped memory. Nothing where the first is missing.
pub fn parse_proc_status_footprint(status: &str) -> (r: Option<u64>)
    ensures
        r == footprint_of(status@),
{
    let text = chars_of(status);
    match read_bytes(&text, &chars_of("RssAnon:")) {
        Some(anon) => match read_bytes(&text, &chars_of("VmSwap:")) {
            Some(swap) => Some(anon.saturating_add(swap)),
            None => Some(anon),
        },
        None => None,
    }
}

/// The lines of a file, each with its end.
pub open spec fn written(lines: Seq<Seq<char>>) -> Seq<char>
    decreases lines.len(),
{
    if lines.len() == 0 {
        Seq::empty()
    } else {
        lines[0] + seq!['\n'] + written(lines.drop_first())
    }
}

/// Whether a line is that of a field: it starts with the name and ends in `kB`.
pub open spec fn is_line_of(line: Seq<char>, name: Seq<char>) -> bool {
    &&& line.len() >= name.len() + 2
    &&& line.subrange(0, name.len() as int) == name
    &&& line[line.len() - 2] == 'k'
    &&& line[line.len() - 1] == 'B'
}

/// Whether a text is one line.
pub open spec fn is_one_line(line: Seq<char>) -> bool {
    (forall|i: int| 0 <= i < line.len() ==> #[trigger] line[i] != '\n') && (line.len() == 0
        || line[line.len() - 1] != '\r')
}

/// What a line says of a field.
proof fn lemma_line_of(line: Seq<char>, name: Seq<char>)
    ensures
        field_in(line, name) is Some <==> is_line_of(line, name),
        is_line_of(line, name) ==> field_in(line, name)->0 == line.subrange(
            name.len() as int,
            line.len() - 2,
        ),
{
    let n = line.len() as int;
    if n >= name.len() + 2 {
        assert(line.take(name.len() as int) =~= line.subrange(0, name.len() as int));
        let end = line.skip(n - 2);
        assert(end.len() == 2 && end[0] == line[n - 2] && end[1] == line[n - 1]);
        let unit = seq!['k', 'B'];
        assert(unit[0] == 'k' && unit[1] == 'B');
        if line[n - 2] == 'k' && line[n - 1] == 'B' {
            assert(end =~= unit);
        }
    }
}

/// A field is read from the first line of the file that is its own: what stands
/// between its name and the unit. Where no line is, there is none.
pub proof fn law_field_is_on_its_line(lines: Seq<Seq<char>>, name: Seq<char>)
    requires
        forall|i: int| 0 <= i < lines.len() ==> is_one_line(#[trigger] lines[i]),
    ensures
        ({
            let field = find_field(written(lines), name);
            &&& field is None <==> forall|i: int|
                0 <= i < lines.len() ==> !is_line_of(#[trigger] lines[i], name)
            &&& forall|i: int|
                0 <= i < lines.len() && is_line_of(#[trigger] lines[i], name) && (forall|j: int|
                    0 <= j < i ==> !is_line_of(#[trigger] lines[j], name)) ==> field == Some(
                    lines[i].subrange(name.len() as int, lines[i].len() - 2),
                )
        }),
    decreases lines.len(),
{
    let text = written(lines);
    if lines.len() > 0 {
        let line = lines[0];
        let rest = lines.drop_first();
        assert forall|i: int| 0 <= i < rest.len() implies is_one_line(#[trigger] rest[i]) by {
            assert(rest[i] == lines[i + 1]);
        }
        law_field_is_on_its_line(rest, name);
        assert(is_one_line(line));
        let k = first_index(text, '\n');
        lemma_first_index(text, '\n');
        assert(text[line.len() as int] == '\n');
        assert(k == line.len()) by {
            if k < line.len() {
                assert(text[k] == line[k]);
            }
        }
        assert(text.take(k) =~= line);
        assert(first_line(text) =~= line);
        assert(after_line(text) =~= written(rest));
        lemma_line_of(line, name);
        assert forall|i: int|
            0 <= i < lines.len() && is_line_of(#[trigger] lines[i], name) && (forall|j: int|
                0 <= j < i ==> !is_line_of(#[trigger] lines[j], name)) implies find_field(
            text,
            name,
        ) == Some(lines[i].subrange(name.len() as int, lines[i].len() - 2)) by {
            if i > 0 {
                assert(!is_line_of(lines[0], name));
                assert(rest[i - 1] == lines[i]);
                assert forall|j: int| 0 <= j < i - 1 implies !is_line_of(
                    #[trigger] rest[j],
                    name,
                ) by {
                    assert(!is_line_of(lines[j + 1], name));
                }
            }
        }
        if find_field(text, name) is None {
            assert forall|i: int| 0 <= i < lines.len() implies !is_line_of(
                #[trigger] lines[i],
                name,
            ) by {
                if i > 0 {
                    assert(rest[i - 1] == lines[i]);
                }
            }
        } else if !is_line_of(line, name) {
            let i = choose|i: int| 0 <= i < rest.len() && is_line_of(#[trigger] rest[i], name);
            assert(lines[i + 1] == rest[i]);
        }
    }
}

/// What a process really holds is its anonymous memory and what of it was swapped
/// out, each counted in units of 1024 bytes. Without the first there is nothing to
/// tell, and what is no number counts as missing.
pub proof fn law_footprint_is_anonymous_and_swapped(s: Seq<char>)
    ensures
        ({
            let anon = find_field(s, "RssAnon:"@);
            let swap = find_field(s, "VmSwap:"@);
            let a = unsigned_of(trimmed(anon->0));
            let b = unsigned_of(trimmed(swap->0));
            let known = anon is Some && a is Some;
            let swapped = swap is Some && b is Some;
            let bytes = a->0 * 1024 + if swapped {
                b->0 * 1024
            } else {
                0
            };
            &&& footprint_of(s) is Some <==> known
            &&& known ==> footprint_of(s)->0 == if bytes <= 0xffff_ffff_ffff_ffff {
                bytes
            } else {
                0xffff_ffff_ffff_ffff
            }
        }),
{
}

} // verus!
