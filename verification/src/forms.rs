//! Form bodies: `key=value` pairs separated by `&`, with percent-decoded values.
use vstd::prelude::*;
use crate::error::{rule, is_rule, ServerError};
use crate::text::{
    chars_of, find_char, find_char_in, parse_i64, split_on, str_eq,
    bounded_decimal,
};

verus! {

/// What `urlencoding::decode` gives back for `raw`: the percent-decoded text, or nothing
/// when the decoded bytes are not UTF-8.
pub uninterp spec fn url_decoded(raw: Seq<char>) -> Option<Seq<char>>;

/// Calls `urlencoding::decode`. Its result is named by `url_decoded`; the source
/// (urlencoding 2.1.3, `decode`) hands the input back unchanged when it holds no `%`.
#[verifier::external_body]
fn url_decode(raw: &str) -> (r: Option<String>)
    ensures
        r.is_some() == url_decoded(raw@).is_some(),
        r.is_some() ==> url_decoded(raw@) == Some(r.unwrap()@),
        !raw@.contains('%') ==> r.is_some() && r.unwrap()@ == raw@,
{
    match urlencoding::decode(raw) {
        Ok(s) => Some(s.into_owned()),
        Err(_) => None,
    }
}

/// The value stored for one form field: the raw text when it holds no `%`, else its
/// percent-decoding, or the raw text when decoding fails.
pub open spec fn field_text(raw: Seq<char>) -> Seq<char> {
    if !raw.contains('%') {
        raw
    } else {
        match url_decoded(raw) {
            Some(d) => d,
            None => raw,
        }
    }
}

/// The field one `&`-separated piece describes: the text before its first `=` as key and
/// the decoded text after it as value; a piece without `=` describes none.
pub open spec fn form_field(piece: Seq<char>) -> Option<(Seq<char>, Seq<char>)> {
    let i = find_char(piece, '=');
    if i < piece.len() {
        Some((piece.take(i), field_text(piece.skip(i + 1))))
    } else {
        None
    }
}

/// The fields described by a list of pieces, in order.
pub open spec fn form_fields(pieces: Seq<Seq<char>>) -> Seq<(Seq<char>, Seq<char>)>
    decreases pieces.len(),
{
    if pieces.len() == 0 {
        Seq::empty()
    } else {
        let prev = form_fields(pieces.drop_last());
        match form_field(pieces.last()) {
            Some(f) => prev.push(f),
            None => prev,
        }
    }
}

/// The fields of a form body.
pub open spec fn parse_form(body: Seq<char>) -> Seq<(Seq<char>, Seq<char>)> {
    form_fields(split_on(body, '&'))
}

/// The value of the last field named `key`: later fields replace earlier ones.
pub open spec fn field_value(f: Seq<(Seq<char>, Seq<char>)>, key: Seq<char>) -> Option<Seq<char>>
    decreases f.len(),
{
    if f.len() == 0 {
        None
    } else if f.last().0 == key {
        Some(f.last().1)
    } else {
        field_value(f.drop_last(), key)
    }
}

/// The fields of a request, in the order they arrived.
pub struct Request(pub Vec<(String, String)>);

impl Request {
    /// The fields as character sequences.
    pub open spec fn fields(&self) -> Seq<(Seq<char>, Seq<char>)> {
        self.0@.map_values(|p: (String, String)| (p.0@, p.1@))
    }

    /// The text of field `key`, empty when absent.
    pub open spec fn text_of(&self, key: Seq<char>) -> Seq<char> {
        match field_value(self.fields(), key) {
            Some(v) => v,
            None => Seq::empty(),
        }
    }

    /// The number in field `key`: `default` when the field is empty or absent, the
    /// decimal value when it holds an `i64`, and otherwise a refusal.
    pub open spec fn number_of(&self, key: Seq<char>, default: i64) -> Option<i64> {
        let t = self.text_of(key);
        if t.len() == 0 {
            Some(default)
        } else {
            match bounded_decimal(t, i64::MIN as int, i64::MAX as int) {
                Some(v) => Some(v as i64),
                None => None,
            }
        }
    }

    /// The text of field `key`, or the empty string.
    pub fn text(&self, key: &str) -> (r: &str)
        ensures
            r@ == self.text_of(key@),
    {
        let mut i = self.0.len();
        proof {
            assert(self.fields().take(i as int) =~= self.fields());
        }
        while i > 0
            invariant
                i <= self.0@.len(),
                field_value(self.fields(), key@) == field_value(self.fields().take(i as int), key@),
            decreases i,
        {
            let ghost f = self.fields().take(i as int);
            proof {
                assert(f.drop_last() =~= self.fields().take(i - 1));
                assert(f.last() == (self.0@[i - 1].0@, self.0@[i - 1].1@));
            }
            if str_eq(self.0[i - 1].0.as_str(), key) {
                return self.0[i - 1].1.as_str();
            }
            i = i - 1;
        }
        proof {
            reveal_strlit("");
            assert(self.fields().take(0) =~= Seq::<(Seq<char>, Seq<char>)>::empty());
        }
        ""
    }

    /// The number in field `key`, refused with `InvalidValue` when it is not one.
    pub fn number(&self, key: &str, default: i64) -> (r: Result<i64, ServerError>)
        ensures
            match self.number_of(key@, default) {
                Some(v) => r == Ok::<i64, ServerError>(v),
                None => r is Err && is_rule(r->Err_0, "InvalidValue"@),
            },
    {
        let t = self.text(key);
        if t.is_empty() {
            return Ok(default);
        }
        match parse_i64(t) {
            Some(v) => Ok(v),
            None => Err(rule("InvalidValue")),
        }
    }
}

/// The field described by the piece `cs[start..end]`, whose characters are `body`'s.
fn field_of(body: &str, cs: &Vec<char>, start: usize, end: usize) -> (r: Option<(String, String)>)
    requires
        cs@ == body@,
        start <= end <= cs@.len(),
    ensures
        match form_field(cs@.subrange(start as int, end as int)) {
            Some(f) => r is Some && (r->0).0@ == f.0 && (r->0).1@ == f.1,
            None => r is None,
        },
{
    let j = find_char_in(cs, '=', start, end);
    let ghost piece = cs@.subrange(start as int, end as int);
    if j == end {
        return None;
    }
    let key = String::from_str(body.substring_char(start, j));
    let raw = body.substring_char(j + 1, end);
    let value = match url_decode(raw) {
        Some(d) => d,
        None => String::from_str(raw),
    };
    proof {
        assert(piece.take(j - start) =~= body@.subrange(start as int, j as int));
        assert(piece.skip(j - start + 1) =~= body@.subrange(j + 1, end as int));
    }
    Some((key, value))
}

/// Splits a form body into its fields, percent-decoding each value.
pub fn parse_form_body(body: &str) -> (r: Request)
    ensures
        r.fields() == parse_form(body@),
{
    let cs = chars_of(body);
    let n = cs.len();
    let mut out: Vec<(String, String)> = Vec::new();
    let mut start: usize = 0;
    let mut i: usize = 0;
    let ghost mut done: Seq<Seq<char>> = Seq::empty();
    proof {
        assert(cs@.take(0) =~= Seq::<char>::empty());
        assert(done.push(cs@.subrange(0, 0)) =~= seq![Seq::<char>::empty()]);
    }
    while i < n
        invariant
            cs@ == body@,
            n == cs@.len(),
            start <= i <= n,
            split_on(cs@.take(i as int), '&') == done.push(cs@.subrange(start as int, i as int)),
            Request(out).fields() == form_fields(done),
        decreases n - i,
    {
        let ghost s1 = cs@.take(i + 1);
        proof {
            assert(s1.drop_last() =~= cs@.take(i as int));
            assert(s1.last() == cs@[i as int]);
        }
        if cs[i] == '&' {
            let f = field_of(body, &cs, start, i);
            let ghost piece = cs@.subrange(start as int, i as int);
            let ghost old_out = out;
            match f {
                Some(p) => {
                    out.push(p);
                },
                None => {},
            }
            proof {
                assert(done.push(piece).drop_last() =~= done);
                assert(Request(out).fields() =~= form_fields(done.push(piece)));
                done = done.push(piece);
                assert(cs@.subrange(i + 1, i + 1) =~= Seq::<char>::empty());
            }
            start = i + 1;
        } else {
            proof {
                let prev = done.push(cs@.subrange(start as int, i as int));
                assert(prev.last() == cs@.subrange(start as int, i as int));
                assert(cs@.subrange(start as int, i as int).push(cs@[i as int])
                    =~= cs@.subrange(start as int, i + 1));
                assert(prev.update(prev.len() - 1, prev.last().push(cs@[i as int]))
                    =~= done.push(cs@.subrange(start as int, i + 1)));
            }
        }
        i = i + 1;
    }
    let f = field_of(body, &cs, start, n);
    let ghost piece = cs@.subrange(start as int, n as int);
    match f {
        Some(p) => {
            out.push(p);
        },
        None => {},
    }
    proof {
        assert(cs@.take(n as int) =~= body@);
        assert(done.push(piece).drop_last() =~= done);
        assert(Request(out).fields() =~= form_fields(done.push(piece)));
    }
    Request(out)
}

/// The session a typed request names: its session key, else its session id; a request
/// naming neither is refused with `SessionExpired`.
pub fn session_of(key: Option<String>, id: Option<String>) -> (r: Result<String, ServerError>)
    ensures
        match key {
            Some(k) => r == Ok::<String, ServerError>(k),
            None => match id {
                Some(i) => r == Ok::<String, ServerError>(i),
                None => r == Err::<String, ServerError>(ServerError::SessionExpired),
            },
        },
{
    match key {
        Some(k) => Ok(k),
        None => match id {
            Some(i) => Ok(i),
            None => Err(ServerError::SessionExpired),
        },
    }
}

/// The session key of a form: its `SessionKey` field, else its `SessionId` field.
pub fn get_session_key(params: &Request) -> (r: Option<String>)
    ensures
        match field_value(params.fields(), "SessionKey"@) {
            Some(v) => r is Some && r->0@ == v,
            None => match field_value(params.fields(), "SessionId"@) {
                Some(v) => r is Some && r->0@ == v,
                None => r is None,
            },
        },
{
    match params.find("SessionKey") {
        Some(v) => Some(String::from_str(v)),
        None => match params.find("SessionId") {
            Some(v) => Some(String::from_str(v)),
            None => None,
        },
    }
}

impl Request {
    /// The value of the last field named `key`, if any.
    pub fn find(&self, key: &str) -> (r: Option<&str>)
        ensures
            match field_value(self.fields(), key@) {
                Some(v) => r is Some && r->0@ == v,
                None => r is None,
            },
    {
        let mut i = self.0.len();
        proof {
            assert(self.fields().take(i as int) =~= self.fields());
        }
        while i > 0
            invariant
                i <= self.0@.len(),
                field_value(self.fields(), key@) == field_value(self.fields().take(i as int), key@),
            decreases i,
        {
            let ghost f = self.fields().take(i as int);
            proof {
                assert(f.drop_last() =~= self.fields().take(i - 1));
                assert(f.last() == (self.0@[i - 1].0@, self.0@[i - 1].1@));
            }
            if str_eq(self.0[i - 1].0.as_str(), key) {
                return Some(self.0[i - 1].1.as_str());
            }
            i = i - 1;
        }
        None
    }
}

} // verus!
