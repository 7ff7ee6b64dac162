//! The vault: a text of credential lines, searched and rewritten in memory.
use vstd::prelude::*;

use crate::error::OtpError;
use crate::key::{parse_record, Key, KeyView};
use crate::text::{
    chars_of, field_spans, fields_of, line_spans, lines_of, lines_scan, spans_of, str_eq,
};

verus! {

/// The first credential named `name` among `lines`, taken in order; lines
/// that hold no credential are passed over.
pub open spec fn find_record(lines: Seq<Seq<char>>, name: Seq<char>) -> Option<KeyView>
    decreases lines.len(),
{
    if lines.len() == 0 {
        None
    } else {
        match parse_record(lines[0]) {
            Some(k) => if k.name == name {
                Some(k)
            } else {
                find_record(lines.drop_first(), name)
            },
            None => find_record(lines.drop_first(), name),
        }
    }
}

/// The name that `line` lists: its first field, when it has at least four
/// fields and a non-empty name and secret, whatever its kind field says.
pub open spec fn listed_name(line: Seq<char>) -> Option<Seq<char>> {
    let f = fields_of(line);
    if f.len() < 4 || f[0].len() == 0 || f[2].len() == 0 {
        None
    } else {
        Some(f[0])
    }
}

/// The names that `lines` list, in order, repeats kept.
pub open spec fn names_of(lines: Seq<Seq<char>>) -> Seq<Seq<char>>
    decreases lines.len(),
{
    if lines.len() == 0 {
        Seq::empty()
    } else {
        let before = names_of(lines.drop_last());
        match listed_name(lines.last()) {
            Some(name) => before.push(name),
            None => before,
        }
    }
}

/// Whether the first whitespace-separated field of `line` is `name`.
pub open spec fn first_field_is(line: Seq<char>, name: Seq<char>) -> bool {
    fields_of(line).len() > 0 && fields_of(line)[0] == name
}

/// `value` without one trailing newline, if it has one.
pub open spec fn without_newline(value: Seq<char>) -> Seq<char> {
    if value.len() > 0 && value.last() == '\n' {
        value.drop_last()
    } else {
        value
    }
}

/// `lines` with each line whose first field is `name` replaced by `value`;
/// every other line is kept as it is, in its place.
pub open spec fn altered_lines(lines: Seq<Seq<char>>, name: Seq<char>, value: Seq<char>) -> Seq<
    Seq<char>,
> {
    Seq::new(
        lines.len(),
        |i: int|
            if first_field_is(lines[i], name) {
                without_newline(value)
            } else {
                lines[i]
            },
    )
}

/// The text of `lines`, each ended by a newline.
pub open spec fn join_lines(lines: Seq<Seq<char>>) -> Seq<char>
    decreases lines.len(),
{
    if lines.len() == 0 {
        Seq::empty()
    } else {
        join_lines(lines.drop_last()) + lines.last() + seq!['\n']
    }
}

/// Whether `line` holds no newline.
pub open spec fn no_newline(line: Seq<char>) -> bool {
    forall|j: int| 0 <= j < line.len() ==> line[j] != '\n'
}

/// Reading on from the end of a line, a line without newline becomes the
/// line being read.
proof fn lemma_scan_line(p: Seq<char>, l: Seq<char>)
    requires
        lines_scan(p).1 == Seq::<char>::empty(),
        no_newline(l),
    ensures
        lines_scan(p + l) == (lines_scan(p).0, l),
    decreases l.len(),
{
    if l.len() > 0 {
        assert(no_newline(l.drop_last())) by {
            assert forall|j: int| 0 <= j < l.drop_last().len() implies l.drop_last()[j] != '\n' by {
                assert(l.drop_last()[j] == l[j]);
            }
        }
        lemma_scan_line(p, l.drop_last());
        assert((p + l).drop_last() =~= p + l.drop_last());
        assert((p + l).last() == l[l.len() - 1]);
        assert(l.drop_last().push(l.last()) =~= l);
    } else {
        assert(p + l =~= p);
    }
}

/// Lines without newlines, joined, split back into the same lines.
proof fn lemma_lines_of_join(ls: Seq<Seq<char>>)
    requires
        forall|i: int| 0 <= i < ls.len() ==> no_newline(#[trigger] ls[i]),
    ensures
        lines_scan(join_lines(ls)) == (ls, Seq::<char>::empty()),
        lines_of(join_lines(ls)) == ls,
    decreases ls.len(),
{
    if ls.len() > 0 {
        let init = ls.drop_last();
        assert forall|i: int| 0 <= i < init.len() implies no_newline(#[trigger] init[i]) by {
            assert(init[i] == ls[i]);
        }
        lemma_lines_of_join(init);
        let p = join_lines(init);
        assert(no_newline(ls[ls.len() - 1]));
        lemma_scan_line(p, ls.last());
        assert((p + ls.last() + seq!['\n']).drop_last() =~= p + ls.last());
        assert(init.push(ls.last()) =~= ls);
    } else {
        assert(ls =~= Seq::<Seq<char>>::empty());
    }
}

/// No line of a text holds a newline.
proof fn lemma_scan_no_newline(s: Seq<char>)
    ensures
        forall|i: int| 0 <= i < lines_scan(s).0.len() ==> no_newline(#[trigger] lines_scan(s).0[i]),
        no_newline(lines_scan(s).1),
        forall|i: int| 0 <= i < lines_of(s).len() ==> no_newline(#[trigger] lines_of(s)[i]),
    decreases s.len(),
{
    if s.len() > 0 {
        lemma_scan_no_newline(s.drop_last());
        let (done, cur) = lines_scan(s.drop_last());
        if s.last() != '\n' {
            assert forall|j: int| 0 <= j < cur.push(s.last()).len() implies cur.push(s.last())[j]
                != '\n' by {
                if j < cur.len() {
                    assert(cur.push(s.last())[j] == cur[j]);
                }
            }
        } else {
            assert forall|i: int| 0 <= i < done.push(cur).len() implies no_newline(
                #[trigger] done.push(cur)[i],
            ) by {
                if i < done.len() {
                    assert(done.push(cur)[i] == done[i]);
                }
            }
        }
    }
    let (done, cur) = lines_scan(s);
    assert forall|i: int| 0 <= i < lines_of(s).len() implies no_newline(#[trigger] lines_of(s)[i]) by {
        if cur.len() > 0 && i == done.len() {
            assert(lines_of(s)[i] == cur);
        } else {
            assert(lines_of(s)[i] == done[i]);
        }
    }
}

/// A line that holds a credential begins with the credential's name.
proof fn lemma_record_first_field(line: Seq<char>)
    requires
        parse_record(line).is_some(),
    ensures
        first_field_is(line, parse_record(line).unwrap().name),
{
}

/// Searching the altered lines for `name` finds the replacement record.
proof fn lemma_find_altered(lines: Seq<Seq<char>>, name: Seq<char>, value: Seq<char>, k: KeyView)
    requires
        parse_record(without_newline(value)) == Some(k),
        k.name == name,
        exists|i: int| 0 <= i < lines.len() && first_field_is(#[trigger] lines[i], name),
    ensures
        find_record(altered_lines(lines, name, value), name) == Some(k),
    decreases lines.len(),
{
    let a = altered_lines(lines, name, value);
    let i = choose|i: int| 0 <= i < lines.len() && first_field_is(#[trigger] lines[i], name);
    if !first_field_is(lines[0], name) {
        assert(a[0] == lines[0]);
        if parse_record(lines[0]).is_some() {
            lemma_record_first_field(lines[0]);
        }
        let rest = lines.drop_first();
        assert(rest[i - 1] == lines[i]);
        lemma_find_altered(rest, name, value, k);
        assert(a.drop_first() =~= altered_lines(rest, name, value));
    }
}

/// After `alter(name, value)` on a vault with a line whose first field is
/// `name`, where `value` is one line holding a credential named `name`, the
/// first credential named `name` is the one that `value` holds.
pub proof fn lemma_alter_then_query(content: Seq<char>, name: Seq<char>, value: Seq<char>)
    requires
        exists|i: int|
            0 <= i < lines_of(content).len() && first_field_is(#[trigger] lines_of(content)[i], name),
        parse_record(without_newline(value)) matches Some(k) && k.name == name,
        no_newline(without_newline(value)),
    ensures
        find_record(lines_of(join_lines(altered_lines(lines_of(content), name, value))), name)
            == parse_record(without_newline(value)),
{
    let lines = lines_of(content);
    let a = altered_lines(lines, name, value);
    lemma_scan_no_newline(content);
    assert forall|i: int| 0 <= i < a.len() implies no_newline(#[trigger] a[i]) by {
        assert(no_newline(lines[i]));
    }
    lemma_lines_of_join(a);
    lemma_find_altered(lines, name, value, parse_record(without_newline(value)).unwrap());
}

/// The name that `line` lists, if any.
fn listed_name_of(line: &str) -> (r: Option<&str>)
    ensures
        match r {
            Some(name) => listed_name(line@) == Some(name@),
            None => listed_name(line@).is_none(),
        },
{
    let cs = chars_of(line);
    let spans = field_spans(&cs);
    let ghost f = fields_of(line@);
    if spans.len() < 4 || spans[0].0 == spans[0].1 || spans[2].0 == spans[2].1 {
        proof {
            if spans.len() >= 4 {
                assert(f[0] == line@.subrange(spans[0].0 as int, spans[0].1 as int));
                assert(f[2] == line@.subrange(spans[2].0 as int, spans[2].1 as int));
            }
        }
        return None;
    }
    assert(f[0] == line@.subrange(spans[0].0 as int, spans[0].1 as int));
    assert(f[2] == line@.subrange(spans[2].0 as int, spans[2].1 as int));
    Some(line.substring_char(spans[0].0, spans[0].1))
}

/// Whether the first whitespace-separated field of `line` is `name`.
fn first_field_equals(line: &str, name: &str) -> (r: bool)
    ensures
        r == first_field_is(line@, name@),
{
    let cs = chars_of(line);
    let spans = field_spans(&cs);
    if spans.len() == 0 {
        return false;
    }
    assert(fields_of(line@)[0] == line@.subrange(spans[0].0 as int, spans[0].1 as int));
    str_eq(line.substring_char(spans[0].0, spans[0].1), name)
}

/// A vault: the text of its file, one credential per line.
pub struct KeyChains {
    content: String,
}

impl View for KeyChains {
    type V = Seq<char>;

    closed spec fn view(&self) -> Seq<char> {
        self.content@
    }
}

impl KeyChains {
    /// A vault whose file holds `content`.
    pub fn new(content: String) -> (r: Self)
        ensures
            r@ == content@,
    {
        KeyChains { content }
    }

    /// The text of the file.
    pub fn content(&self) -> (r: &str)
        ensures
            r@ == self@,
    {
        self.content.as_str()
    }

    /// Makes `data` the whole text of the file.
    pub fn set(&mut self, data: String)
        ensures
            final(self)@ == data@,
    {
        self.content = data;
    }

    /// The first credential named `target_name`, scanning the lines in order.
    pub fn query(&self, target_name: &str) -> (r: Result<Key, OtpError>)
        ensures
            match r {
                Ok(k) => find_record(lines_of(self@), target_name@) == Some(k@),
                Err(e) => find_record(lines_of(self@), target_name@).is_none() && e
                    == OtpError::CredentialNotFound,
            },
    {
        let text = self.content.as_str();
        let cs = chars_of(text);
        let spans = line_spans(&cs);
        let ghost lines = lines_of(self@);
        assert(lines.subrange(0, lines.len() as int) =~= lines);
        let mut i: usize = 0;
        while i < spans.len()
            invariant
                text@ == self@,
                cs@ == self@,
                lines == lines_of(self@),
                spans_of(spans@, self@, lines),
                i <= spans.len(),
                find_record(lines, target_name@) == find_record(
                    lines.subrange(i as int, lines.len() as int),
                    target_name@,
                ),
            decreases spans.len() - i,
        {
            let line = text.substring_char(spans[i].0, spans[i].1);
            let ghost rest = lines.subrange(i as int, lines.len() as int);
            assert(rest[0] == lines[i as int]);
            assert(rest.drop_first() =~= lines.subrange(i + 1, lines.len() as int));
            assert(lines[i as int] == line@);
            if let Some(k) = Key::parse(line) {
                if str_eq(k.get_name(), target_name) {
                    return Ok(k);
                }
            }
            i = i + 1;
        }
        Err(OtpError::CredentialNotFound)
    }

    /// The first field of every line with at least four fields and a
    /// non-empty name and secret, in file order, repeats kept.
    pub fn get_endpoint_names(&self) -> (r: Vec<String>)
        ensures
            r@.len() == names_of(lines_of(self@)).len(),
            forall|i: int| 0 <= i < r@.len() ==> #[trigger] r@[i]@ == names_of(lines_of(self@))[i],
    {
        let text = self.content.as_str();
        let cs = chars_of(text);
        let spans = line_spans(&cs);
        let ghost lines = lines_of(self@);
        let mut names: Vec<String> = Vec::new();
        let mut i: usize = 0;
        while i < spans.len()
            invariant
                text@ == self@,
                lines == lines_of(self@),
                spans_of(spans@, self@, lines),
                i <= spans.len(),
                names@.len() == names_of(lines.subrange(0, i as int)).len(),
                forall|j: int|
                    0 <= j < names@.len() ==> #[trigger] names@[j]@ == names_of(
                        lines.subrange(0, i as int),
                    )[j],
            decreases spans.len() - i,
        {
            let line = text.substring_char(spans[i].0, spans[i].1);
            let ghost prefix = lines.subrange(0, i + 1);
            assert(prefix.drop_last() =~= lines.subrange(0, i as int));
            assert(prefix.last() == line@);
            if let Some(name) = listed_name_of(line) {
                names.push(name.to_owned());
            }
            i = i + 1;
        }
        assert(lines.subrange(0, i as int) =~= lines);
        names
    }

    /// Replaces each line whose first field is `key` by `value` (one trailing
    /// newline of `value` dropped); every other line, malformed or not, is kept
    /// as it was, in its place. The file is rewritten whole, each line ended
    /// by a newline.
    pub fn alter(&mut self, key: String, value: String)
        ensures
            final(self)@ == join_lines(altered_lines(lines_of(old(self)@), key@, value@)),
    {
        let replacement = strip_newline(value.as_str());
        let text = self.content.as_str();
        let cs = chars_of(text);
        let spans = line_spans(&cs);
        let ghost lines = lines_of(self@);
        let ghost target = altered_lines(lines, key@, value@);
        let mut out = String::new();
        let mut i: usize = 0;
        while i < spans.len()
            invariant
                text@ == self@,
                lines == lines_of(self@),
                target == altered_lines(lines, key@, value@),
                replacement@ == without_newline(value@),
                spans_of(spans@, self@, lines),
                i <= spans.len(),
                out@ == join_lines(target.subrange(0, i as int)),
            decreases spans.len() - i,
        {
            let line = text.substring_char(spans[i].0, spans[i].1);
            let ghost prefix = target.subrange(0, i + 1);
            assert(prefix.drop_last() =~= target.subrange(0, i as int));
            assert(lines[i as int] == line@);
            if first_field_equals(line, key.as_str()) {
                out.append(replacement);
            } else {
                out.append(line);
            }
            out.append("\n");
            proof {
                reveal_strlit("\n");
            }
            assert(out@ =~= join_lines(prefix));
            i = i + 1;
        }
        assert(target.subrange(0, i as int) =~= target);
        self.content = out;
    }

    /// Whether some line's first field is `name`.
    fn has_line_named(&self, name: &str) -> (r: bool)
        ensures
            r == exists|i: int|
                0 <= i < lines_of(self@).len() && first_field_is(#[trigger] lines_of(self@)[i], name@),
    {
        let text = self.content.as_str();
        let cs = chars_of(text);
        let spans = line_spans(&cs);
        let ghost lines = lines_of(self@);
        let mut i: usize = 0;
        while i < spans.len()
            invariant
                text@ == self@,
                lines == lines_of(self@),
                spans_of(spans@, self@, lines),
                i <= spans.len(),
                forall|j: int| 0 <= j < i ==> !first_field_is(#[trigger] lines[j], name@),
            decreases spans.len() - i,
        {
            let line = text.substring_char(spans[i].0, spans[i].1);
            assert(lines[i as int] == line@);
            if first_field_equals(line, name) {
                return true;
            }
            i = i + 1;
        }
        false
    }

    /// Like `alter`, but where no line's first field is `key`, `value` (one
    /// trailing newline dropped) is added as a new last line instead.
    pub fn alter_or_append(&mut self, key: String, value: String)
        ensures
            ({
                let lines = lines_of(old(self)@);
                if exists|i: int| 0 <= i < lines.len() && first_field_is(#[trigger] lines[i], key@) {
                    final(self)@ == join_lines(altered_lines(lines, key@, value@))
                } else {
                    final(self)@ == join_lines(lines.push(without_newline(value@)))
                }
            }),
    {
        let ghost lines = lines_of(self@);
        if self.has_line_named(key.as_str()) {
            self.alter(key, value);
        } else {
            let line = value.clone();
            self.alter(key, value);
            assert(altered_lines(lines, key@, line@) =~= lines);
            let mut out = String::new();
            out.append(self.content.as_str());
            out.append(strip_newline(line.as_str()));
            out.append("\n");
            proof {
                reveal_strlit("\n");
            }
            let ghost all = lines.push(without_newline(line@));
            assert(all.drop_last() =~= lines);
            assert(out@ =~= join_lines(all));
            self.content = out;
        }
    }
}

/// `value` without one trailing newline, if it has one.
fn strip_newline(value: &str) -> (r: &str)
    ensures
        r@ == without_newline(value@),
{
    let n = value.unicode_len();
    if n > 0 && value.get_char(n - 1) == '\n' {
        value.substring_char(0, n - 1)
    } else {
        assert(value@.subrange(0, n as int) =~= value@);
        value.substring_char(0, n)
    }
}

} // verus!
