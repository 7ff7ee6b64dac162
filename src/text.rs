//! Character-level helpers shared by the code renderer and the vault parser.
use vstd::prelude::*;

verus! {

/// The characters of `s`, in order.
pub fn chars_of(s: &str) -> (r: Vec<char>)
    ensures
        r@ == s@,
{
    let mut v: Vec<char> = Vec::new();
    for c in it: s.chars()
        invariant
            v@ == it.seq().subrange(0, it.index() as int),
    {
        v.push(c);
    }
    v
}

/// The decimal digit character for `d`, which is below ten.
pub open spec fn digit_char(d: int) -> char {
    seq!['0', '1', '2', '3', '4', '5', '6', '7', '8', '9'][d]
}

/// Whether `c` is one of the ASCII decimal digits.
pub open spec fn is_ascii_digit(c: char) -> bool {
    '0' <= c && c <= '9'
}

/// Appends the digit character for `d` to `s`.
pub fn push_digit(s: &mut String, d: u64)
    requires
        d < 10,
    ensures
        final(s)@ == old(s)@.push(digit_char(d as int)),
        is_ascii_digit(digit_char(d as int)),
{
    let digits = "0123456789";
    proof {
        reveal_strlit("0123456789");
    }
    let one = digits.substring_char(d as usize, (d + 1) as usize);
    s.append(one);
    assert(one@ =~= seq![digit_char(d as int)]);
}

/// Whether `c` is a whitespace character (the Unicode `White_Space` set).
pub open spec fn is_whitespace(c: char) -> bool {
    c == ' ' || ('\t' <= c && c <= '\r') || c == '\u{85}' || c == '\u{a0}' || c == '\u{1680}'
        || ('\u{2000}' <= c && c <= '\u{200a}') || c == '\u{2028}' || c == '\u{2029}'
        || c == '\u{202f}' || c == '\u{205f}' || c == '\u{3000}'
}

/// Whether `c` is a whitespace character.
pub fn is_whitespace_char(c: char) -> (r: bool)
    ensures
        r == is_whitespace(c),
{
    c == ' ' || ('\t' <= c && c <= '\r') || c == '\u{85}' || c == '\u{a0}' || c == '\u{1680}'
        || ('\u{2000}' <= c && c <= '\u{200a}') || c == '\u{2028}' || c == '\u{2029}'
        || c == '\u{202f}' || c == '\u{205f}' || c == '\u{3000}'
}

/// Reading `s` left to right: the fields finished so far, and the field
/// being read. Whitespace ends a field; runs of it make no empty fields.
pub open spec fn fields_scan(s: Seq<char>) -> (Seq<Seq<char>>, Seq<char>)
    decreases s.len(),
{
    if s.len() == 0 {
        (Seq::empty(), Seq::empty())
    } else {
        let (done, cur) = fields_scan(s.drop_last());
        if is_whitespace(s.last()) {
            if cur.len() > 0 {
                (done.push(cur), Seq::empty())
            } else {
                (done, cur)
            }
        } else {
            (done, cur.push(s.last()))
        }
    }
}

/// The whitespace-separated fields of `s`, in order, none empty.
pub open spec fn fields_of(s: Seq<char>) -> Seq<Seq<char>> {
    let (done, cur) = fields_scan(s);
    if cur.len() > 0 {
        done.push(cur)
    } else {
        done
    }
}

/// Reading `s` left to right: the lines finished so far, and the line being
/// read. Each newline ends a line.
pub open spec fn lines_scan(s: Seq<char>) -> (Seq<Seq<char>>, Seq<char>)
    decreases s.len(),
{
    if s.len() == 0 {
        (Seq::empty(), Seq::empty())
    } else {
        let (done, cur) = lines_scan(s.drop_last());
        if s.last() == '\n' {
            (done.push(cur), Seq::empty())
        } else {
            (done, cur.push(s.last()))
        }
    }
}

/// The lines of `s` without their newlines; text after the last newline is
/// one more line, and a final newline starts no empty line.
pub open spec fn lines_of(s: Seq<char>) -> Seq<Seq<char>> {
    let (done, cur) = lines_scan(s);
    if cur.len() > 0 {
        done.push(cur)
    } else {
        done
    }
}

/// Whether `spans` locate `pieces` in `s`: one span per piece, each a
/// `[start, end)` range of `s` holding that piece.
pub open spec fn spans_of(spans: Seq<(usize, usize)>, s: Seq<char>, pieces: Seq<Seq<char>>) -> bool {
    &&& spans.len() == pieces.len()
    &&& forall|k: int|
        #![trigger spans[k]]
        #![trigger pieces[k]]
        0 <= k < spans.len() ==> {
            &&& spans[k].0 <= spans[k].1
            &&& spans[k].1 <= s.len()
            &&& pieces[k] == s.subrange(spans[k].0 as int, spans[k].1 as int)
        }
}

/// One more span, for one more piece, keeps `spans_of`.
proof fn lemma_spans_push(
    spans: Seq<(usize, usize)>,
    s: Seq<char>,
    pieces: Seq<Seq<char>>,
    span: (usize, usize),
)
    requires
        spans_of(spans, s, pieces),
        span.0 <= span.1 <= s.len(),
    ensures
        spans_of(spans.push(span), s, pieces.push(s.subrange(span.0 as int, span.1 as int))),
{
    let pieces2 = pieces.push(s.subrange(span.0 as int, span.1 as int));
    let spans2 = spans.push(span);
    assert forall|k: int|
        #![trigger spans2[k]]
        #![trigger pieces2[k]]
        0 <= k < spans2.len() implies {
            &&& spans2[k].0 <= spans2[k].1
            &&& spans2[k].1 <= s.len()
            &&& pieces2[k] == s.subrange(spans2[k].0 as int, spans2[k].1 as int)
        } by {
        if k < spans.len() {
            assert(pieces2[k] == pieces[k]);
            assert(spans2[k] == spans[k]);
        } else {
            assert(spans2[k] == span);
        }
    }
}

/// Where the whitespace-separated fields of `s` lie.
pub fn field_spans(s: &Vec<char>) -> (r: Vec<(usize, usize)>)
    ensures
        spans_of(r@, s@, fields_of(s@)),
{
    let mut spans: Vec<(usize, usize)> = Vec::new();
    let mut start: usize = 0;
    let mut i: usize = 0;
    while i < s.len()
        invariant
            start <= i <= s.len(),
            fields_scan(s@.subrange(0, i as int)).1 == s@.subrange(start as int, i as int),
            spans_of(spans@, s@, fields_scan(s@.subrange(0, i as int)).0),
        decreases s.len() - i,
    {
        proof {
            assert(s@.subrange(0, i + 1).drop_last() =~= s@.subrange(0, i as int));
            assert(s@.subrange(start as int, i + 1) =~= s@.subrange(start as int, i as int).push(
                s@[i as int],
            ));
        }
        if is_whitespace_char(s[i]) {
            if start < i {
                proof {
                    lemma_spans_push(spans@, s@, fields_scan(s@.subrange(0, i as int)).0, (start, i));
                }
                spans.push((start, i));
            }
            start = i + 1;
        }
        i = i + 1;
    }
    assert(s@.subrange(0, s@.len() as int) =~= s@);
    if start < i {
        proof {
            lemma_spans_push(spans@, s@, fields_scan(s@).0, (start, i));
        }
        spans.push((start, i));
    }
    spans
}

/// Where the lines of `s` lie, newlines left out.
pub fn line_spans(s: &Vec<char>) -> (r: Vec<(usize, usize)>)
    ensures
        spans_of(r@, s@, lines_of(s@)),
{
    let mut spans: Vec<(usize, usize)> = Vec::new();
    let mut start: usize = 0;
    let mut i: usize = 0;
    while i < s.len()
        invariant
            start <= i <= s.len(),
            lines_scan(s@.subrange(0, i as int)).1 == s@.subrange(start as int, i as int),
            spans_of(spans@, s@, lines_scan(s@.subrange(0, i as int)).0),
        decreases s.len() - i,
    {
        proof {
            assert(s@.subrange(0, i + 1).drop_last() =~= s@.subrange(0, i as int));
            assert(s@.subrange(start as int, i + 1) =~= s@.subrange(start as int, i as int).push(
                s@[i as int],
            ));
        }
        if s[i] == '\n' {
            proof {
                lemma_spans_push(spans@, s@, lines_scan(s@.subrange(0, i as int)).0, (start, i));
            }
            spans.push((start, i));
            start = i + 1;
        }
        i = i + 1;
    }
    assert(s@.subrange(0, s@.len() as int) =~= s@);
    if start < i {
        proof {
            lemma_spans_push(spans@, s@, lines_scan(s@).0, (start, i));
        }
        spans.push((start, i));
    }
    spans
}

/// Whether two strings hold the same characters.
pub fn str_eq(a: &str, b: &str) -> (r: bool)
    ensures
        r == (a@ == b@),
{
    let ca = chars_of(a);
    let cb = chars_of(b);
    if ca.len() != cb.len() {
        return false;
    }
    let mut i: usize = 0;
    while i < ca.len()
        invariant
            ca@ == a@,
            cb@ == b@,
            ca.len() == cb.len(),
            i <= ca.len(),
            ca@.subrange(0, i as int) == cb@.subrange(0, i as int),
        decreases ca.len() - i,
    {
        if ca[i] != cb[i] {
            assert(ca@[i as int] != cb@[i as int]);
            return false;
        }
        assert(ca@.subrange(0, i + 1) =~= ca@.subrange(0, i as int).push(ca@[i as int]));
        assert(cb@.subrange(0, i + 1) =~= cb@.subrange(0, i as int).push(cb@[i as int]));
        i = i + 1;
    }
    assert(ca@ =~= ca@.subrange(0, i as int));
    assert(cb@ =~= cb@.subrange(0, i as int));
    true
}

/// The value of the digit character `c`.
pub open spec fn digit_value(c: char) -> int {
    c as int - '0' as int
}

/// Whether every character of `s` is an ASCII decimal digit.
pub open spec fn all_digits(s: Seq<char>) -> bool {
    forall|i: int| 0 <= i < s.len() ==> is_ascii_digit(#[trigger] s[i])
}

/// The number that the digits `s` write in base ten.
pub open spec fn decimal_value(s: Seq<char>) -> int
    decreases s.len(),
{
    if s.len() == 0 {
        0
    } else {
        decimal_value(s.drop_last()) * 10 + digit_value(s.last())
    }
}

/// `n` written in base ten, without leading zeros.
pub open spec fn decimal_of(n: nat) -> Seq<char>
    decreases n,
{
    if n < 10 {
        seq![digit_char(n as int)]
    } else {
        decimal_of(n / 10).push(digit_char((n % 10) as int))
    }
}

/// A longer run of digits is worth at least as much as its prefix.
proof fn lemma_decimal_prefix_le(s: Seq<char>, k: int)
    requires
        all_digits(s),
        0 <= k <= s.len(),
    ensures
        0 <= decimal_value(s.subrange(0, k)) <= decimal_value(s),
    decreases s.len(),
{
    if k < s.len() {
        let t = s.drop_last();
        assert(all_digits(t)) by {
            assert forall|i: int| 0 <= i < t.len() implies is_ascii_digit(#[trigger] t[i]) by {
                assert(t[i] == s[i]);
            }
        }
        lemma_decimal_prefix_le(t, k);
        assert(t.subrange(0, k) =~= s.subrange(0, k));
        assert(is_ascii_digit(s[s.len() - 1]));
    } else {
        assert(s.subrange(0, k) =~= s);
        lemma_decimal_nonneg(s);
    }
}

/// Digits are worth zero or more.
proof fn lemma_decimal_nonneg(s: Seq<char>)
    requires
        all_digits(s),
    ensures
        decimal_value(s) >= 0,
    decreases s.len(),
{
    if s.len() > 0 {
        let t = s.drop_last();
        assert(all_digits(t)) by {
            assert forall|i: int| 0 <= i < t.len() implies is_ascii_digit(#[trigger] t[i]) by {
                assert(t[i] == s[i]);
            }
        }
        lemma_decimal_nonneg(t);
        assert(is_ascii_digit(s[s.len() - 1]));
    }
}

/// The number that the digits `s` write in base ten, when `s` is a
/// non-empty run of ASCII digits whose value fits in a `u64`.
pub open spec fn parsed_digits(s: Seq<char>) -> Option<u64> {
    if s.len() > 0 && all_digits(s) && decimal_value(s) <= u64::MAX {
        Some(decimal_value(s) as u64)
    } else {
        None
    }
}

/// Reads the digits `s` as a base-ten `u64`, refusing overflow.
fn parse_digits(s: &str) -> (r: Option<u64>)
    ensures
        r == parsed_digits(s@),
{
    let cs = chars_of(s);
    if cs.len() == 0 {
        return None;
    }
    let mut value: u64 = 0;
    let mut i: usize = 0;
    while i < cs.len()
        invariant
            cs@ == s@,
            i <= cs.len(),
            all_digits(cs@.subrange(0, i as int)),
            value == decimal_value(cs@.subrange(0, i as int)),
        decreases cs.len() - i,
    {
        let c = cs[i];
        let prefix = Ghost(cs@.subrange(0, i + 1));
        assert(prefix@.drop_last() =~= cs@.subrange(0, i as int));
        if !('0' <= c && c <= '9') {
            assert(!all_digits(cs@)) by {
                assert(!is_ascii_digit(cs@[i as int]));
            }
            return None;
        }
        let d = (c as u32 - '0' as u32) as u64;
        let next: u128 = value as u128 * 10 + d as u128;
        assert(all_digits(prefix@)) by {
            assert forall|j: int| 0 <= j < prefix@.len() implies is_ascii_digit(#[trigger] prefix@[j]) by {
                if j < i {
                    assert(prefix@[j] == cs@.subrange(0, i as int)[j]);
                }
            }
        }
        if next > u64::MAX as u128 {
            proof {
                if all_digits(cs@) {
                    lemma_decimal_prefix_le(cs@, i + 1);
                }
            }
            return None;
        }
        value = next as u64;
        i = i + 1;
    }
    assert(cs@.subrange(0, i as int) =~= cs@);
    Some(value)
}

/// `s` without one leading `+`, if it has one.
pub open spec fn unsigned_part(s: Seq<char>) -> Seq<char> {
    if s.len() > 0 && s[0] == '+' {
        s.drop_first()
    } else {
        s
    }
}

/// The number that `s` writes in base ten: an optional `+`, then at least one
/// ASCII digit, with a value that fits in a `u64`.
pub open spec fn parsed_u64(s: Seq<char>) -> Option<u64> {
    parsed_digits(unsigned_part(s))
}

/// Reads `s` as a base-ten `u64`: an optional `+`, then digits, no overflow.
pub fn parse_u64(s: &str) -> (r: Option<u64>)
    ensures
        r == parsed_u64(s@),
{
    let n = s.unicode_len();
    if n > 0 && s.get_char(0) == '+' {
        assert(s@.subrange(1, n as int) =~= s@.drop_first());
        parse_digits(s.substring_char(1, n))
    } else {
        parse_digits(s)
    }
}

/// Whether `s` holds the character `c`.
pub fn has_char(s: &str, c: char) -> (r: bool)
    ensures
        r == s@.contains(c),
{
    let cs = chars_of(s);
    let mut i: usize = 0;
    while i < cs.len()
        invariant
            cs@ == s@,
            i <= cs.len(),
            forall|j: int| 0 <= j < i ==> cs@[j] != c,
        decreases cs.len() - i,
    {
        if cs[i] == c {
            assert(s@[i as int] == c);
            return true;
        }
        i = i + 1;
    }
    false
}

/// Appends `n` in base ten to `s`.
pub fn push_decimal(s: &mut String, n: u64)
    ensures
        final(s)@ == old(s)@ + decimal_of(n as nat),
    decreases n,
{
    if n >= 10 {
        push_decimal(s, n / 10);
    }
    push_digit(s, n % 10);
}

/// Whether `s` holds no whitespace character.
pub open spec fn no_whitespace(s: Seq<char>) -> bool {
    forall|j: int| 0 <= j < s.len() ==> !is_whitespace(#[trigger] s[j])
}

/// Reading a word without whitespace right after a field has ended makes it
/// the field being read.
pub proof fn lemma_fields_word(p: Seq<char>, w: Seq<char>)
    requires
        fields_scan(p).1 == Seq::<char>::empty(),
        no_whitespace(w),
    ensures
        fields_scan(p + w) == (fields_scan(p).0, w),
    decreases w.len(),
{
    if w.len() > 0 {
        assert(no_whitespace(w.drop_last())) by {
            assert forall|j: int| 0 <= j < w.drop_last().len() implies !is_whitespace(
                #[trigger] w.drop_last()[j],
            ) by {
                assert(w.drop_last()[j] == w[j]);
            }
        }
        lemma_fields_word(p, w.drop_last());
        assert((p + w).drop_last() =~= p + w.drop_last());
        assert((p + w).last() == w[w.len() - 1]);
        assert(w.drop_last().push(w.last()) =~= w);
    } else {
        assert(p + w =~= p);
    }
}

/// A whitespace character ends the non-empty field being read.
pub proof fn lemma_fields_sep(p: Seq<char>, c: char)
    requires
        fields_scan(p).1.len() > 0,
        is_whitespace(c),
    ensures
        fields_scan(p + seq![c]) == (fields_scan(p).0.push(fields_scan(p).1), Seq::<char>::empty()),
{
    assert((p + seq![c]).drop_last() =~= p);
}

/// The digits of `n` read back as `n`.
pub proof fn lemma_decimal_round_trip(n: nat)
    ensures
        decimal_of(n).len() > 0,
        all_digits(decimal_of(n)),
        no_whitespace(decimal_of(n)),
        decimal_value(decimal_of(n)) == n,
    decreases n,
{
    let d = (n % 10) as int;
    assert(digit_value(digit_char(d)) == d && is_ascii_digit(digit_char(d)));
    if n >= 10 {
        lemma_decimal_round_trip(n / 10);
        let s = decimal_of(n / 10);
        let t = s.push(digit_char(d));
        assert(t.drop_last() =~= s);
        assert(t.last() == digit_char(d));
        assert((n / 10) * 10 + n % 10 == n) by (nonlinear_arith);
        assert(decimal_value(t) == decimal_value(s) * 10 + d);
        assert(decimal_value(t) == n);
        assert forall|j: int| 0 <= j < t.len() implies is_ascii_digit(#[trigger] t[j]) && !is_whitespace(t[j]) by {
            if j < s.len() {
                assert(t[j] == s[j]);
            }
        }
    } else {
        let t = seq![digit_char(n as int)];
        assert(t.drop_last() =~= Seq::<char>::empty());
        assert(decimal_value(Seq::<char>::empty()) == 0);
        assert(decimal_value(t) == n);
    }
}

} // verus!
