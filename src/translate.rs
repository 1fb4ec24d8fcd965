use vstd::prelude::*;
use vstd::std_specs::iter::IteratorSpec;
use vstd::utf8::{decode_utf8, valid_utf8};

verus! {

broadcast use vstd::string::group_string_axioms;

/// Unicode White_Space, the set that `char::is_whitespace` tests.
pub open spec fn is_white_space(c: char) -> bool {
    let u = c as u32;
    (0x09 <= u && u <= 0x0d) || u == 0x20 || u == 0x85 || u == 0xa0 || u == 0x1680 || (0x2000 <= u
        && u <= 0x200a) || u == 0x2028 || u == 0x2029 || u == 0x202f || u == 0x205f || u == 0x3000
}

/// `s` without its leading whitespace.
pub open spec fn trim_start(s: Seq<char>) -> Seq<char>
    decreases s.len(),
{
    if s.len() > 0 && is_white_space(s[0]) {
        trim_start(s.drop_first())
    } else {
        s
    }
}

/// `s` without its trailing whitespace.
pub open spec fn trim_end(s: Seq<char>) -> Seq<char>
    decreases s.len(),
{
    if s.len() > 0 && is_white_space(s.last()) {
        trim_end(s.drop_last())
    } else {
        s
    }
}

/// `s` without leading and trailing whitespace.
pub open spec fn trim(s: Seq<char>) -> Seq<char> {
    trim_end(trim_start(s))
}

/// The characters after the last line feed of `s` (all of `s` if it has none).
pub open spec fn open_line(s: Seq<char>) -> Seq<char>
    decreases s.len(),
{
    if s.len() == 0 {
        s
    } else if s.last() == '\n' {
        Seq::empty()
    } else {
        open_line(s.drop_last()).push(s.last())
    }
}

/// The lines of `s` that a line feed ends, without that line feed, in order.
pub open spec fn closed_lines(s: Seq<char>) -> Seq<Seq<char>>
    decreases s.len(),
{
    if s.len() == 0 {
        Seq::empty()
    } else if s.last() == '\n' {
        closed_lines(s.drop_last()).push(open_line(s.drop_last()))
    } else {
        closed_lines(s.drop_last())
    }
}

/// The lines of `s`: the text between line feeds, where a final line feed
/// opens no further line. A carriage return before a line feed stays in the
/// line; it is whitespace, so a payload loses it to `trim`.
pub open spec fn lines(s: Seq<char>) -> Seq<Seq<char>> {
    if open_line(s).len() > 0 {
        closed_lines(s).push(open_line(s))
    } else {
        closed_lines(s)
    }
}

/// The line starts with the event-stream data prefix `data: `.
pub open spec fn has_data_prefix(line: Seq<char>) -> bool {
    &&& line.len() >= 6
    &&& line[0] == 'd' && line[1] == 'a' && line[2] == 't' && line[3] == 'a'
    &&& line[4] == ':' && line[5] == ' '
}

/// The events a single line yields: its trimmed remainder after the data
/// prefix, or nothing for a line without that prefix.
pub open spec fn line_events(line: Seq<char>) -> Seq<Seq<char>> {
    if has_data_prefix(line) {
        seq![trim(line.skip(6))]
    } else {
        Seq::empty()
    }
}

/// The events of a sequence of lines, in line order.
pub open spec fn events_of_lines(ls: Seq<Seq<char>>) -> Seq<Seq<char>>
    decreases ls.len(),
{
    if ls.len() == 0 {
        Seq::empty()
    } else {
        events_of_lines(ls.drop_last()) + line_events(ls.last())
    }
}

/// The output events carried by one decoded chunk of backend text.
pub open spec fn text_events(s: Seq<char>) -> Seq<Seq<char>> {
    events_of_lines(lines(s))
}

proof fn lemma_events_push(ls: Seq<Seq<char>>, l: Seq<char>)
    ensures
        events_of_lines(ls.push(l)) == events_of_lines(ls) + line_events(l),
{
    assert(ls.push(l).drop_last() =~= ls);
}

/// Lines that do not start with `data: `, such as blank lines, comments and
/// other fields, yield no event.
pub proof fn non_data_lines_yield_nothing(ls: Seq<Seq<char>>)
    requires
        forall|i: int| 0 <= i < ls.len() ==> !has_data_prefix(#[trigger] ls[i]),
    ensures
        events_of_lines(ls) == Seq::<Seq<char>>::empty(),
    decreases ls.len(),
{
    if ls.len() > 0 {
        let prefix = ls.drop_last();
        assert forall|i: int| 0 <= i < prefix.len() implies !has_data_prefix(#[trigger] prefix[i]) by {
            assert(prefix[i] == ls[i]);
        }
        non_data_lines_yield_nothing(prefix);
        assert(!has_data_prefix(ls[ls.len() - 1]));
        assert(events_of_lines(ls) =~= Seq::<Seq<char>>::empty());
    }
}

/// A chunk of text none of whose lines starts with `data: ` yields no event.
pub proof fn text_without_data_lines_is_silent(s: Seq<char>)
    requires
        forall|i: int| 0 <= i < lines(s).len() ==> !has_data_prefix(#[trigger] lines(s)[i]),
    ensures
        text_events(s) == Seq::<Seq<char>>::empty(),
{
    non_data_lines_yield_nothing(lines(s));
}

proof fn lemma_single_line(t: Seq<char>)
    requires
        forall|i: int| 0 <= i < t.len() ==> t[i] != '\n',
    ensures
        open_line(t) == t,
        closed_lines(t) == Seq::<Seq<char>>::empty(),
    decreases t.len(),
{
    if t.len() > 0 {
        lemma_single_line(t.drop_last());
        assert(t.drop_last().push(t.last()) =~= t);
    }
}

/// The events of a text that holds no line feed are those of its one line.
proof fn lemma_events_of_single_line(t: Seq<char>)
    requires
        forall|i: int| 0 <= i < t.len() ==> t[i] != '\n',
    ensures
        text_events(t) == line_events(t),
{
    lemma_single_line(t);
    if t.len() > 0 {
        lemma_events_push(Seq::empty(), t);
        assert(Seq::<Seq<char>>::empty().push(t) == closed_lines(t).push(open_line(t)));
        assert(events_of_lines(Seq::<Seq<char>>::empty()) + line_events(t) =~= line_events(t));
    } else {
        assert(events_of_lines(lines(t)) == Seq::<Seq<char>>::empty());
    }
}

/// Chunks are read one by one, with no carry-over: where a chunk boundary cuts
/// a line that ends in a blank line (`data: ...` then two line feeds), the
/// first chunk yields the events of the head of the line alone, and the second
/// those of the rest of the line alone. So the line yields at most two events
/// in place of one, and exactly the events of its two parts.
pub proof fn cut_line_is_read_per_chunk(line: Seq<char>, k: int)
    requires
        0 < k <= line.len(),
        forall|i: int| 0 <= i < line.len() ==> line[i] != '\n',
    ensures
        text_events(line.take(k)) == line_events(line.take(k)),
        text_events(line.skip(k) + seq!['\n', '\n']) == line_events(line.skip(k)),
{
    let head = line.take(k);
    let rest = line.skip(k);
    assert forall|i: int| 0 <= i < head.len() implies head[i] != '\n' by {
        assert(head[i] == line[i]);
    }
    lemma_events_of_single_line(head);
    assert forall|i: int| 0 <= i < rest.len() implies rest[i] != '\n' by {
        assert(rest[i] == line[i + k]);
    }
    lemma_single_line(rest);
    let once = rest.push('\n');
    let twice = once.push('\n');
    assert(rest + seq!['\n', '\n'] =~= twice);
    assert(once.drop_last() =~= rest);
    assert(twice.drop_last() =~= once);
    assert(closed_lines(once) == Seq::<Seq<char>>::empty().push(rest));
    assert(open_line(once) == Seq::<char>::empty());
    assert(closed_lines(twice) == closed_lines(once).push(Seq::<char>::empty()));
    assert(open_line(twice) == Seq::<char>::empty());
    lemma_events_push(Seq::<Seq<char>>::empty(), rest);
    lemma_events_push(closed_lines(once), Seq::<char>::empty());
    assert(events_of_lines(Seq::<Seq<char>>::empty()) == Seq::<Seq<char>>::empty());
    assert(line_events(Seq::<char>::empty()) == Seq::<Seq<char>>::empty());
    assert(text_events(twice) =~= line_events(rest));
}

/// Unicode White_Space test on one character.
pub fn is_white_space_char(c: char) -> (r: bool)
    ensures
        r == is_white_space(c),
{
    let u = c as u32;
    (0x09 <= u && u <= 0x0d) || u == 0x20 || u == 0x85 || u == 0xa0 || u == 0x1680 || (0x2000 <= u
        && u <= 0x200a) || u == 0x2028 || u == 0x2029 || u == 0x202f || u == 0x205f || u == 0x3000
}

fn chars_of(text: &str) -> (r: Vec<char>)
    ensures
        r@ == text@,
{
    let mut it = text.chars();
    let mut cs: Vec<char> = Vec::new();
    loop
        invariant
            cs@.len() <= text@.len(),
            cs@ == text@.take(cs@.len() as int),
            it.remaining() == text@.skip(cs@.len() as int),
            it.obeys_prophetic_iter_laws(),
        ensures
            cs@ == text@,
        decreases text@.len() - cs@.len(),
    {
        match it.next() {
            Some(c) => {
                assert(text@.take(cs@.len() + 1int) =~= text@.take(cs@.len() as int).push(c));
                cs.push(c);
                assert(text@.skip(cs@.len() as int) =~= text@.skip(cs@.len() - 1int).drop_first());
            },
            None => {
                assert(text@.take(cs@.len() as int) =~= text@);
                break;
            },
        }
    }
    cs
}

/// The event of the line `cs[a..b]`, if the line has one; `text` holds the
/// same characters as `cs`.
fn line_event(text: &str, cs: &Vec<char>, a: usize, b: usize) -> (r: Option<String>)
    requires
        cs@ == text@,
        a <= b <= cs@.len(),
    ensures
        match r {
            Some(p) => line_events(cs@.subrange(a as int, b as int)) == seq![p@],
            None => line_events(cs@.subrange(a as int, b as int)) == Seq::<Seq<char>>::empty(),
        },
{
    let ghost line = cs@.subrange(a as int, b as int);
    if b - a < 6 || cs[a] != 'd' || cs[a + 1] != 'a' || cs[a + 2] != 't' || cs[a + 3] != 'a'
        || cs[a + 4] != ':' || cs[a + 5] != ' ' {
        return None;
    }
    let mut x: usize = a + 6;
    assert(line.skip(6) =~= cs@.subrange(x as int, b as int));
    while x < b && is_white_space_char(cs[x])
        invariant
            a + 6 <= x <= b <= cs@.len(),
            trim_start(line.skip(6)) == trim_start(cs@.subrange(x as int, b as int)),
        decreases b - x,
    {
        assert(cs@.subrange(x as int, b as int).drop_first() =~= cs@.subrange(x + 1, b as int));
        x = x + 1;
    }
    let mut y: usize = b;
    while y > x && is_white_space_char(cs[y - 1])
        invariant
            x <= y <= b <= cs@.len(),
            trim_end(cs@.subrange(x as int, b as int)) == trim_end(cs@.subrange(x as int, y as int)),
        decreases y - x,
    {
        assert(cs@.subrange(x as int, y as int).drop_last() =~= cs@.subrange(x as int, y - 1));
        y = y - 1;
    }
    Some(String::from_str(text.substring_char(x, y)))
}

fn push_event(out: &mut Vec<String>, e: Option<String>)
    ensures
        final(out).deep_view() == old(out).deep_view() + match e {
            Some(p) => seq![p@],
            None => Seq::<Seq<char>>::empty(),
        },
{
    match e {
        Some(p) => {
            let ghost v = p@;
            out.push(p);
            assert(final(out).deep_view() =~= old(out).deep_view() + seq![v]);
        },
        None => {
            assert(out.deep_view() =~= old(out).deep_view() + Seq::<Seq<char>>::empty());
        },
    }
}

/// The output events of one decoded chunk: one per line that starts with
/// `data: `, carrying the rest of that line without surrounding whitespace,
/// in line order. Each chunk is read on its own: a line that a chunk
/// boundary cuts is two lines here, one at the end of each chunk.
pub fn events_of_text(text: &str) -> (r: Vec<String>)
    ensures
        r.deep_view() == text_events(text@),
{
    let cs = chars_of(text);
    let n = cs.len();
    let mut out: Vec<String> = Vec::new();
    let mut start: usize = 0;
    let mut i: usize = 0;
    assert(cs@.take(0) =~= Seq::<char>::empty());
    assert(out.deep_view() =~= Seq::<Seq<char>>::empty());
    while i < n
        invariant
            cs@ == text@,
            n == cs@.len(),
            start <= i <= n,
            open_line(cs@.take(i as int)) == cs@.subrange(start as int, i as int),
            out.deep_view() == events_of_lines(closed_lines(cs@.take(i as int))),
        decreases n - i,
    {
        let ghost p = cs@.take(i as int);
        assert(cs@.take(i + 1).drop_last() =~= p);
        assert(cs@.take(i + 1).last() == cs@[i as int]);
        if cs[i] == '\n' {
            let e = line_event(text, &cs, start, i);
            push_event(&mut out, e);
            proof {
                lemma_events_push(closed_lines(p), open_line(p));
            }
            assert(cs@.subrange(i + 1, i + 1) =~= Seq::<char>::empty());
            start = i + 1;
        } else {
            assert(cs@.subrange(start as int, i + 1) =~= cs@.subrange(start as int, i as int).push(
                cs@[i as int],
            ));
        }
        i = i + 1;
    }
    assert(cs@.take(n as int) =~= cs@);
    if start < n {
        let e = line_event(text, &cs, start, n);
        push_event(&mut out, e);
        proof {
            lemma_events_push(closed_lines(cs@), open_line(cs@));
        }
    }
    out
}

/// The in-stream notice for a chunk that could not be read from the backend.
pub open spec fn read_error_notice(e: Seq<char>) -> Seq<char> {
    "[Gateway Error: Could not read chunk from backend: "@ + e + "]"@
}

/// The in-stream notice for a chunk that is not valid UTF-8.
pub open spec fn decode_error_notice(e: Seq<char>) -> Seq<char> {
    "[Gateway Error: Non-UTF8 data received: "@ + e + "]"@
}

/// The text of the error that decoding `b` as UTF-8 reports.
pub uninterp spec fn utf8_error_text_of(b: Seq<u8>) -> Seq<char>;

/// Relies on String::from_utf8: it succeeds exactly on valid UTF-8 and then
/// holds the characters that the bytes encode; on failure its error, written
/// out as text, depends on the bytes alone.
#[verifier::external_body]
fn string_from_utf8(bytes: Vec<u8>) -> (r: Result<String, String>)
    ensures
        r is Ok <==> valid_utf8(bytes@),
        r matches Ok(s) ==> s@ == decode_utf8(bytes@),
        r matches Err(t) ==> t@ == utf8_error_text_of(bytes@),
{
    String::from_utf8(bytes).map_err(|e| e.to_string())
}

fn bracketed(head: &str, detail: &str) -> (r: String)
    ensures
        r@ == head@ + detail@ + "]"@,
{
    let mut r = String::from_str(head);
    r.append(detail);
    r.append("]");
    r
}

/// Turns one item of the backend's byte stream into the output events it
/// yields, in order. A chunk that could not be read gives one notice with the
/// read error's text; one that is not UTF-8 gives one notice with the decode
/// error's text; any other chunk gives the events of its text.
pub fn translate_chunk(chunk: Result<Vec<u8>, String>) -> (r: Vec<String>)
    ensures
        match chunk {
            Err(e) => r.deep_view() == seq![read_error_notice(e@)],
            Ok(b) => if valid_utf8(b@) {
                r.deep_view() == text_events(decode_utf8(b@))
            } else {
                r.deep_view() == seq![decode_error_notice(utf8_error_text_of(b@))]
            },
        },
{
    match chunk {
        Err(e) => {
            let n = bracketed("[Gateway Error: Could not read chunk from backend: ", e.as_str());
            let ghost v = n@;
            let r = vec![n];
            assert(r.deep_view() =~= seq![v]);
            r
        },
        Ok(b) => match string_from_utf8(b) {
            Ok(text) => events_of_text(text.as_str()),
            Err(detail) => {
                let n = bracketed("[Gateway Error: Non-UTF8 data received: ", detail.as_str());
                let r = vec![n];
                assert(r.deep_view() =~= seq![decode_error_notice(detail@)]);
                r
            },
        },
    }
}

} // verus!
