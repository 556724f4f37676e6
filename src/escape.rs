//! Escape handlers: how a raw value token is checked against a primitive
//! type and written as a literal that is safe to splice into a predicate.
use vstd::prelude::*;
use crate::number::{integer_of, decimal_of_int, read_integer, push_decimal};
use crate::text::{push_char, chars_of, text_equals};
use crate::timestamp::{utc_instant_of, rfc3339_of, read_utc_instant, write_rfc3339};

verus! {

/// The primitive types a value token can be read as. Each reads a token
/// and writes the value back in its own textual form.
#[derive(Debug, Clone, Copy, PartialEq, Eq, Structural)]
pub enum Codec {
    /// Any text, kept as it is.
    Text,
    /// `true` or `false`.
    Boolean,
    /// A decimal `i32`, with an optional sign.
    I32,
    /// A decimal `u32`, with an optional `+`.
    U32,
    /// A decimal `i64`, with an optional sign.
    I64,
    /// A decimal `u64`, with an optional `+`.
    U64,
    /// An instant, read as chrono reads a UTC date-time and written in
    /// RFC 3339.
    Timestamp,
}

/// How a field turns a raw token into a literal: the codec that checks and
/// rewrites the value, and whether the result is put in single quotes.
#[derive(Debug, Clone, Copy, PartialEq, Eq, Structural)]
pub struct EscapeHandler {
    pub codec: Codec,
    pub quoted: bool,
}

/// A Rust type that stands for one of the codecs.
pub trait Primitive {
    spec fn spec_codec() -> Codec;

    fn codec() -> (c: Codec)
        ensures
            c == Self::spec_codec(),
    ;
}

impl Primitive for String {
    open spec fn spec_codec() -> Codec {
        Codec::Text
    }

    fn codec() -> (c: Codec) {
        Codec::Text
    }
}

impl Primitive for bool {
    open spec fn spec_codec() -> Codec {
        Codec::Boolean
    }

    fn codec() -> (c: Codec) {
        Codec::Boolean
    }
}

impl Primitive for i32 {
    open spec fn spec_codec() -> Codec {
        Codec::I32
    }

    fn codec() -> (c: Codec) {
        Codec::I32
    }
}

impl Primitive for u32 {
    open spec fn spec_codec() -> Codec {
        Codec::U32
    }

    fn codec() -> (c: Codec) {
        Codec::U32
    }
}

impl Primitive for i64 {
    open spec fn spec_codec() -> Codec {
        Codec::I64
    }

    fn codec() -> (c: Codec) {
        Codec::I64
    }
}

impl Primitive for u64 {
    open spec fn spec_codec() -> Codec {
        Codec::U64
    }

    fn codec() -> (c: Codec) {
        Codec::U64
    }
}

/// A handler that writes the value of `codec` in single quotes.
pub fn escape_quoted_with_converter(codec: Codec) -> (h: EscapeHandler)
    ensures
        h == (EscapeHandler { codec, quoted: true }),
{
    EscapeHandler { codec, quoted: true }
}

/// A handler that writes a value of type `T` in single quotes.
pub fn escape_quoted<T: Primitive>() -> (h: EscapeHandler)
    ensures
        h == (EscapeHandler { codec: T::spec_codec(), quoted: true }),
{
    escape_quoted_with_converter(T::codec())
}

/// A handler that writes the value of `codec` bare, as a number is written.
pub fn escape_unquoted_with_converter(codec: Codec) -> (h: EscapeHandler)
    ensures
        h == (EscapeHandler { codec, quoted: false }),
{
    EscapeHandler { codec, quoted: false }
}

/// A handler that writes a value of type `T` bare.
pub fn escape_unquoted<T: Primitive>() -> (h: EscapeHandler)
    ensures
        h == (EscapeHandler { codec: T::spec_codec(), quoted: false }),
{
    escape_unquoted_with_converter(T::codec())
}

/// The handler of a field that names none: quoted text.
pub open spec fn default_handler() -> EscapeHandler {
    EscapeHandler { codec: Codec::Text, quoted: true }
}

/// The bounds of an integer codec: whether a sign is read, and the range.
pub open spec fn integer_bounds(codec: Codec) -> (bool, int, int) {
    match codec {
        Codec::I32 => (true, -0x8000_0000, 0x7fff_ffff),
        Codec::U32 => (false, 0, 0xffff_ffff),
        Codec::I64 => (true, -0x8000_0000_0000_0000, 0x7fff_ffff_ffff_ffff),
        _ => (false, 0, 0xffff_ffff_ffff_ffff),
    }
}

pub open spec fn is_integer_codec(codec: Codec) -> bool {
    codec is I32 || codec is U32 || codec is I64 || codec is U64
}

/// The text a codec writes for the token `s`, or `None` when `s` does not
/// read as a value of its type.
pub open spec fn codec_text(codec: Codec, s: Seq<char>) -> Option<Seq<char>> {
    match codec {
        Codec::Text => Some(s),
        Codec::Boolean => if s == seq!['t', 'r', 'u', 'e'] || s == seq!['f', 'a', 'l', 's', 'e'] {
            Some(s)
        } else {
            None
        },
        Codec::Timestamp => match utc_instant_of(s) {
            Some((secs, nanos)) => rfc3339_of(secs, nanos),
            None => None,
        },
        _ => {
            let (signed, lo, hi) = integer_bounds(codec);
            match integer_of(s, signed) {
                Some(v) => if lo <= v && v <= hi {
                    Some(decimal_of_int(v))
                } else {
                    None
                },
                None => None,
            }
        },
    }
}

/// The name of a codec's type, as reported when a value does not read.
pub open spec fn codec_label(codec: Codec) -> Seq<char> {
    match codec {
        Codec::Text => "alloc::string::String"@,
        Codec::Boolean => "bool"@,
        Codec::I32 => "i32"@,
        Codec::U32 => "u32"@,
        Codec::I64 => "i64"@,
        Codec::U64 => "u64"@,
        Codec::Timestamp => "chrono::datetime::DateTime<chrono::offset::utc::Utc>"@,
    }
}

pub fn codec_label_exec(codec: Codec) -> (r: String)
    ensures
        r@ == codec_label(codec),
{
    match codec {
        Codec::Text => String::from_str("alloc::string::String"),
        Codec::Boolean => String::from_str("bool"),
        Codec::I32 => String::from_str("i32"),
        Codec::U32 => String::from_str("u32"),
        Codec::I64 => String::from_str("i64"),
        Codec::U64 => String::from_str("u64"),
        Codec::Timestamp => String::from_str("chrono::datetime::DateTime<chrono::offset::utc::Utc>"),
    }
}

fn render_integer(codec: Codec, s: &str) -> (r: Option<String>)
    requires
        is_integer_codec(codec),
    ensures
        match codec_text(codec, s@) {
            Some(t) => r matches Some(out) && out@ == t,
            None => r is None,
        },
{
    let cs = chars_of(s);
    let signed = match codec {
        Codec::I32 | Codec::I64 => true,
        _ => false,
    };
    assert(signed == integer_bounds(codec).0);
    match read_integer(&cs, signed) {
        Some((neg, m)) => {
            let fits = match codec {
                Codec::I32 => if neg { m <= 0x8000_0000 } else { m <= 0x7fff_ffff },
                Codec::U32 => m <= 0xffff_ffff,
                Codec::I64 => if neg {
                    m <= 0x8000_0000_0000_0000
                } else {
                    m <= 0x7fff_ffff_ffff_ffff
                },
                _ => m <= 0xffff_ffff_ffff_ffff,
            };
            if fits {
                let mut out = String::new();
                if neg {
                    push_char(&mut out, '-');
                }
                push_decimal(&mut out, m);
                proof {
                    assert(out@ =~= codec_text(codec, s@)->0);
                }
                Some(out)
            } else {
                None
            }
        },
        None => None,
    }
}

fn render_boolean(s: &str) -> (r: Option<String>)
    ensures
        match codec_text(Codec::Boolean, s@) {
            Some(t) => r matches Some(out) && out@ == t,
            None => r is None,
        },
{
    proof {
        reveal_strlit("true");
        reveal_strlit("false");
        assert("true"@ =~= seq!['t', 'r', 'u', 'e']);
        assert("false"@ =~= seq!['f', 'a', 'l', 's', 'e']);
    }
    if text_equals(s, "true") || text_equals(s, "false") {
        Some(String::from_str(s))
    } else {
        None
    }
}

/// Writes the value of the token `s` as `codec` writes it.
pub fn codec_render(codec: Codec, s: &str) -> (r: Option<String>)
    ensures
        match codec_text(codec, s@) {
            Some(t) => r matches Some(out) && out@ == t,
            None => r is None,
        },
{
    match codec {
        Codec::Text => Some(String::from_str(s)),
        Codec::Boolean => render_boolean(s),
        Codec::Timestamp => match read_utc_instant(s) {
            Some((secs, nanos)) => write_rfc3339(secs, nanos),
            None => None,
        },
        _ => render_integer(codec, s),
    }
}

/// `s` with every single quote doubled.
pub open spec fn double_quotes(s: Seq<char>) -> Seq<char>
    decreases s.len(),
{
    if s.len() == 0 {
        s
    } else if s.last() == '\'' {
        double_quotes(s.drop_last()) + seq!['\'', '\'']
    } else {
        double_quotes(s.drop_last()).push(s.last())
    }
}

/// `s` as a single-quoted literal.
pub open spec fn quote(s: Seq<char>) -> Seq<char> {
    seq!['\''] + double_quotes(s) + seq!['\'']
}

/// How SQL reads the rest of a single-quoted literal from the start of `x`:
/// the text it stands for and the index of the quote that closes it. Two
/// quotes in a row stand for one quote; a lone quote closes the literal.
pub open spec fn read_literal(x: Seq<char>) -> Option<(Seq<char>, int)>
    decreases x.len(),
{
    if x.len() == 0 {
        None
    } else if x[0] == '\'' {
        if x.len() > 1 && x[1] == '\'' {
            match read_literal(x.subrange(2, x.len() as int)) {
                Some((t, k)) => Some((seq!['\''] + t, k + 2)),
                None => None,
            }
        } else {
            Some((Seq::empty(), 0))
        }
    } else {
        match read_literal(x.drop_first()) {
            Some((t, k)) => Some((seq![x[0]] + t, k + 1)),
            None => None,
        }
    }
}

proof fn lemma_double_quotes_concat(a: Seq<char>, b: Seq<char>)
    ensures
        double_quotes(a + b) == double_quotes(a) + double_quotes(b),
    decreases b.len(),
{
    if b.len() == 0 {
        assert(a + b =~= a);
        assert(double_quotes(a) + double_quotes(b) =~= double_quotes(a));
    } else {
        assert((a + b).drop_last() =~= a + b.drop_last());
        assert((a + b).last() == b.last());
        lemma_double_quotes_concat(a, b.drop_last());
        if b.last() == '\'' {
            assert(double_quotes(a + b) =~= double_quotes(a) + double_quotes(b));
        } else {
            assert(double_quotes(a + b) =~= double_quotes(a) + double_quotes(b));
        }
    }
}

/// Doubling the quotes of a text keeps it inside its literal: unless a
/// quote follows right after the closing one, SQL reads back exactly `t`
/// and closes the literal at that quote.
pub proof fn lemma_doubled_quotes_read_back(t: Seq<char>, rest: Seq<char>)
    requires
        rest.len() == 0 || rest[0] != '\'',
    ensures
        read_literal(double_quotes(t) + seq!['\''] + rest) == Some((t, double_quotes(t).len() as int)),
    decreases t.len(),
{
    let x = double_quotes(t) + seq!['\''] + rest;
    if t.len() == 0 {
        assert(double_quotes(t) =~= Seq::<char>::empty());
        assert(x[0] == '\'');
        if x.len() > 1 {
            assert(x[1] == rest[0]);
        }
    } else {
        let c = t[0];
        let tail = t.drop_first();
        assert(t =~= seq![c] + tail);
        lemma_double_quotes_concat(seq![c], tail);
        assert(seq![c].drop_last() =~= Seq::<char>::empty());
        assert(double_quotes(seq![c].drop_last()) =~= Seq::<char>::empty());
        assert(seq![c].last() == c);
        lemma_doubled_quotes_read_back(tail, rest);
        let y = double_quotes(tail) + seq!['\''] + rest;
        if c == '\'' {
            assert(double_quotes(seq![c]) =~= seq!['\'', '\'']);
            assert(x =~= seq!['\'', '\''] + y);
            assert(x.subrange(2, x.len() as int) =~= y);
            assert(seq!['\''] + tail =~= t);
        } else {
            assert(double_quotes(seq![c]) =~= seq![c]);
            assert(x =~= seq![c] + y);
            assert(x.drop_first() =~= y);
            assert(seq![c] + tail =~= t);
        }
    }
}

/// A quoted literal holds the text it was made from, and nothing that
/// follows it (but for a quote right after it) can be read as part of it.
pub proof fn lemma_quote_is_injection_safe(t: Seq<char>, rest: Seq<char>)
    requires
        rest.len() == 0 || rest[0] != '\'',
    ensures
        quote(t)[0] == '\'',
        read_literal(quote(t).drop_first() + rest) == Some((t, quote(t).len() - 2)),
{
    lemma_doubled_quotes_read_back(t, rest);
    assert(quote(t).drop_first() + rest =~= double_quotes(t) + seq!['\''] + rest);
}

/// `text` as a single-quoted SQL literal, its quotes doubled.
pub fn quote_literal(text: &str) -> (r: String)
    ensures
        r@ == quote(text@),
{
    let mut out = String::new();
    push_char(&mut out, '\'');
    push_doubling_quotes(&mut out, text);
    push_char(&mut out, '\'');
    proof {
        assert(out@ =~= quote(text@));
    }
    out
}

/// Appends `s` with its single quotes doubled to `out`.
pub fn push_doubling_quotes(out: &mut String, s: &str)
    ensures
        final(out)@ == old(out)@ + double_quotes(s@),
{
    let cs = chars_of(s);
    let mut i: usize = 0;
    while i < cs.len()
        invariant
            i <= cs@.len(),
            cs@ == s@,
            out@ == old(out)@ + double_quotes(cs@.take(i as int)),
        decreases cs@.len() - i,
    {
        let c = cs[i];
        proof {
            assert(cs@.take(i + 1).drop_last() =~= cs@.take(i as int));
        }
        push_char(out, c);
        if c == '\'' {
            push_char(out, '\'');
        }
        proof {
            assert(out@ =~= old(out)@ + double_quotes(cs@.take(i + 1)));
        }
        i = i + 1;
    }
    proof {
        assert(cs@.take(cs@.len() as int) =~= cs@);
    }
}

} // verus!
