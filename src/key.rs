//! A credential, and its line in the vault.
use vstd::prelude::*;

use crate::commons::{kind_of, kind_token, ClientType};
use crate::text::{
    chars_of, decimal_of, field_spans, fields_of, fields_scan, is_whitespace,
    lemma_decimal_round_trip, lemma_fields_sep, lemma_fields_word, no_whitespace, parse_u64,
    parsed_u64, push_decimal,
};

verus! {

/// What a credential holds, as plain values.
pub struct KeyView {
    pub name: Seq<char>,
    pub kind: ClientType,
    pub secret: Seq<char>,
    pub counter: Option<u64>,
}

/// The credential that a vault line holds: fields `name digits secret kind`,
/// then `counter` for `hotp`. A line with fewer than four fields, an empty name
/// or secret, an unknown kind, or `hotp` without a base-ten `u64` counter
/// holds none.
pub open spec fn parse_record(line: Seq<char>) -> Option<KeyView> {
    let f = fields_of(line);
    if f.len() < 4 || f[0].len() == 0 || f[2].len() == 0 {
        None
    } else {
        match kind_of(f[3]) {
            Some(ClientType::Hotp) => if f.len() >= 5 && parsed_u64(f[4]).is_some() {
                Some(
                    KeyView {
                        name: f[0],
                        kind: ClientType::Hotp,
                        secret: f[2],
                        counter: parsed_u64(f[4]),
                    },
                )
            } else {
                None
            },
            Some(ClientType::Totp) => Some(
                KeyView { name: f[0], kind: ClientType::Totp, secret: f[2], counter: None },
            ),
            None => None,
        }
    }
}

/// The vault line for `k`, newline included; the digits field is always 6.
pub open spec fn record_line(k: KeyView) -> Seq<char> {
    let head = k.name + seq![' ', '6', ' '] + k.secret + seq![' '] + kind_token(k.kind);
    let tail = match k.counter {
        Some(c) => seq![' '] + decimal_of(c as nat),
        None => Seq::empty(),
    };
    head + tail + seq!['\n']
}

/// Whether `k` can be written as a vault line and read back: a non-empty
/// name and secret without whitespace, and a counter exactly for HOTP.
pub open spec fn is_writable(k: KeyView) -> bool {
    &&& k.name.len() > 0
    &&& no_whitespace(k.name)
    &&& k.secret.len() > 0
    &&& no_whitespace(k.secret)
    &&& (k.counter.is_some() <==> k.kind == ClientType::Hotp)
}

/// The line written for a credential that can be written holds that
/// credential again.
pub proof fn lemma_record_round_trip(k: KeyView)
    requires
        is_writable(k),
    ensures
        parse_record(record_line(k)) == Some(k),
{
    let e = Seq::<char>::empty();
    let sp = seq![' '];
    let six = seq!['6'];
    let kind = kind_token(k.kind);
    assert(no_whitespace(six));
    assert(no_whitespace(kind));
    assert(is_whitespace(' ') && is_whitespace('\n'));
    assert(fields_scan(e) == (Seq::<Seq<char>>::empty(), e));
    lemma_fields_word(e, k.name);
    assert(e + k.name =~= k.name);
    let s1 = k.name + sp;
    lemma_fields_sep(k.name, ' ');
    let s2 = s1 + six;
    lemma_fields_word(s1, six);
    let s3 = s2 + sp;
    lemma_fields_sep(s2, ' ');
    let s4 = s3 + k.secret;
    lemma_fields_word(s3, k.secret);
    let s5 = s4 + sp;
    lemma_fields_sep(s4, ' ');
    let s6 = s5 + kind;
    lemma_fields_word(s5, kind);
    let head = k.name + seq![' ', '6', ' '] + k.secret + seq![' '] + kind;
    assert(head =~= s6);
    let names3 = seq![k.name, six, k.secret];
    assert(fields_scan(s6).0 =~= names3);
    match k.counter {
        Some(c) => {
            let dec = decimal_of(c as nat);
            lemma_decimal_round_trip(c as nat);
            let s7 = s6 + sp;
            lemma_fields_sep(s6, ' ');
            let s8 = s7 + dec;
            lemma_fields_word(s7, dec);
            let s9 = s8 + seq!['\n'];
            lemma_fields_sep(s8, '\n');
            assert(record_line(k) =~= s9);
            let f = fields_of(s9);
            assert(f =~= seq![k.name, six, k.secret, kind, dec]);
            assert(kind_of(kind) == Some(k.kind));
            assert(parsed_u64(dec) == Some(c));
        },
        None => {
            let s7 = s6 + seq!['\n'];
            lemma_fields_sep(s6, '\n');
            assert(record_line(k) =~= s7);
            let f = fields_of(s7);
            assert(f =~= seq![k.name, six, k.secret, kind]);
            assert(kind_of(kind) == Some(k.kind));
        },
    }
}

/// A named credential: its kind, its secret text and, for HOTP, its counter.
#[derive(Debug, Clone)]
pub struct Key {
    pub(crate) name: String,
    pub(crate) kind: ClientType,
    pub(crate) secret: String,
    pub(crate) counter: Option<u64>,
}

impl View for Key {
    type V = KeyView;

    closed spec fn view(&self) -> KeyView {
        KeyView {
            name: self.name@,
            kind: self.kind,
            secret: self.secret@,
            counter: self.counter,
        }
    }
}

impl Key {
    /// A credential from its parts.
    pub fn new(name: String, kind: ClientType, secret: String, counter: Option<u64>) -> (r: Key)
        ensures
            r@ == (KeyView { name: name@, kind, secret: secret@, counter }),
    {
        Key { name, kind, secret, counter }
    }

    /// The name.
    pub fn get_name(&self) -> (r: &str)
        ensures
            r@ == self@.name,
    {
        self.name.as_str()
    }

    /// The kind.
    pub fn get_client_type(&self) -> (r: &ClientType)
        ensures
            *r == self@.kind,
    {
        &self.kind
    }

    /// The secret text.
    pub fn get_secret(&self) -> (r: &str)
        ensures
            r@ == self@.secret,
    {
        self.secret.as_str()
    }

    /// The counter, for HOTP.
    pub fn get_counter(&self) -> (r: Option<u64>)
        ensures
            r == self@.counter,
    {
        self.counter
    }

    /// The credential that `line` holds, if any.
    pub fn parse(line: &str) -> (r: Option<Key>)
        ensures
            match r {
                Some(k) => parse_record(line@) == Some(k@),
                None => parse_record(line@).is_none(),
            },
    {
        let cs = chars_of(line);
        let spans = field_spans(&cs);
        let ghost f = fields_of(line@);
        if spans.len() < 4 || spans[0].0 == spans[0].1 || spans[2].0 == spans[2].1 {
            proof {
                if spans.len() >= 4 {
                    assert(f[0] == line@.subrange(spans[0].0 as int, spans[0].1 as int));
                    assert(f[2] == line@.subrange(spans[2].0 as int, spans[2].1 as int));
                }
            }
            return None;
        }
        assert(f[0] == line@.subrange(spans[0].0 as int, spans[0].1 as int));
        assert(f[2] == line@.subrange(spans[2].0 as int, spans[2].1 as int));
        assert(f[3] == line@.subrange(spans[3].0 as int, spans[3].1 as int));
        let name = line.substring_char(spans[0].0, spans[0].1).to_owned();
        let secret = line.substring_char(spans[2].0, spans[2].1).to_owned();
        let kind = ClientType::parse(line.substring_char(spans[3].0, spans[3].1));
        match kind {
            Some(ClientType::Hotp) => {
                if spans.len() < 5 {
                    return None;
                }
                assert(f[4] == line@.subrange(spans[4].0 as int, spans[4].1 as int));
                match parse_u64(line.substring_char(spans[4].0, spans[4].1)) {
                    Some(n) => Some(Key { name, kind: ClientType::Hotp, secret, counter: Some(n) }),
                    None => None,
                }
            },
            Some(ClientType::Totp) => Some(
                Key { name, kind: ClientType::Totp, secret, counter: None },
            ),
            None => None,
        }
    }

    /// The vault line for this credential, newline included.
    pub fn to_line(&self) -> (r: String)
        ensures
            r@ == record_line(self@),
    {
        let mut s = self.name.clone();
        s.append(" 6 ");
        s.append(self.secret.as_str());
        s.append(" ");
        s.append(self.kind.as_str());
        if let Some(c) = self.counter {
            s.append(" ");
            push_decimal(&mut s, c);
        }
        s.append("\n");
        proof {
            reveal_strlit(" 6 ");
            reveal_strlit(" ");
            reveal_strlit("\n");
        }
        assert(s@ =~= record_line(self@));
        s
    }
}

} // verus!
