//! The field registry: for each field name, its output column, the
//! operations it allows and how its values are escaped.
use vstd::prelude::*;
use crate::error::{Error, ErrorView, text_result};
use crate::escape::{
    Codec, EscapeHandler, codec_text, codec_label, codec_label_exec, codec_render, default_handler,
    quote, quote_literal, read_literal, lemma_quote_is_injection_safe,
};

verus! {

/// How one field of the registry is queried.
#[derive(Debug, Clone)]
pub struct FieldConfig {
    /// The name a query uses.
    pub field: String,
    /// The column expression written in its place, when it differs.
    pub rename: Option<String>,
    /// The type named when a value does not read.
    pub declared_type: Option<String>,
    /// Whether a term without a field is tried on this field.
    pub wildcard: bool,
    /// Whether `<`, `<=`, `>` and `>=` are allowed.
    pub partial_order: bool,
    /// Whether `:` is allowed.
    pub partial_equal: bool,
    /// Whether `:` is a case-insensitive substring match.
    pub use_like: bool,
    /// How values are checked and written; quoted text when absent.
    pub escape_handler: Option<EscapeHandler>,
}

/// The handler that escapes the values of `cfg`.
pub open spec fn handler_of(cfg: FieldConfig) -> EscapeHandler {
    match cfg.escape_handler {
        Some(h) => h,
        None => default_handler(),
    }
}

/// The type named in the error when a value of `cfg` does not read.
pub open spec fn type_label(cfg: FieldConfig) -> Seq<char> {
    match cfg.declared_type {
        Some(n) => n@,
        None => codec_label(handler_of(cfg).codec),
    }
}

/// The literal that `cfg` makes of the token `input`, or why it cannot.
pub open spec fn escape_spec(cfg: FieldConfig, input: Seq<char>) -> Result<Seq<char>, ErrorView> {
    let h = handler_of(cfg);
    match codec_text(h.codec, input) {
        Some(t) => Ok(
            if h.quoted {
                quote(t)
            } else {
                t
            },
        ),
        None => Err(ErrorView::InvalidValue { field: cfg.field@, accepted_type: type_label(cfg) }),
    }
}

/// The column expression written for `cfg`.
pub open spec fn output_name(cfg: FieldConfig) -> Seq<char> {
    match cfg.rename {
        Some(r) => r@,
        None => cfg.field@,
    }
}

/// `cfg` with every field equal to those of `old` but the ones a builder sets.
pub open spec fn same_flags(cfg: FieldConfig, old: FieldConfig) -> bool {
    &&& cfg.wildcard == old.wildcard
    &&& cfg.partial_order == old.partial_order
    &&& cfg.partial_equal == old.partial_equal
    &&& cfg.use_like == old.use_like
}

impl FieldConfig {
    /// A field of this name that allows nothing yet.
    pub fn new(field: &str) -> (r: Self)
        ensures
            r.field@ == field@,
            r.rename is None,
            r.declared_type is None,
            !r.wildcard,
            !r.partial_order,
            !r.partial_equal,
            !r.use_like,
            r.escape_handler is None,
    {
        FieldConfig {
            field: String::from_str(field),
            rename: None,
            declared_type: None,
            wildcard: false,
            partial_order: false,
            partial_equal: false,
            use_like: false,
            escape_handler: None,
        }
    }

    /// Writes the column expression `rename` in place of the field's name.
    pub fn rename(self, rename: &str) -> (r: Self)
        ensures
            r.rename matches Some(n) && n@ == rename@,
            r.field == self.field,
            r.declared_type == self.declared_type,
            same_flags(r, self),
            r.escape_handler == self.escape_handler,
    {
        let mut r = self;
        r.rename = Some(String::from_str(rename));
        r
    }

    /// Names the field's type in errors.
    pub fn declared_type(self, declared_type: &str) -> (r: Self)
        ensures
            r.declared_type matches Some(n) && n@ == declared_type@,
            r.field == self.field,
            r.rename == self.rename,
            same_flags(r, self),
            r.escape_handler == self.escape_handler,
    {
        let mut r = self;
        r.declared_type = Some(String::from_str(declared_type));
        r
    }

    /// Tries terms without a field on this field.
    pub fn wildcard(self) -> (r: Self)
        ensures
            r == (FieldConfig { wildcard: true, ..self }),
    {
        let mut r = self;
        r.wildcard = true;
        r
    }

    /// Allows `<`, `<=`, `>` and `>=`.
    pub fn partial_order(self) -> (r: Self)
        ensures
            r == (FieldConfig { partial_order: true, ..self }),
    {
        let mut r = self;
        r.partial_order = true;
        r
    }

    /// Allows `:`.
    pub fn partial_equal(self) -> (r: Self)
        ensures
            r == (FieldConfig { partial_equal: true, ..self }),
    {
        let mut r = self;
        r.partial_equal = true;
        r
    }

    /// Makes `:` a case-insensitive substring match.
    pub fn use_like(self) -> (r: Self)
        ensures
            r == (FieldConfig { use_like: true, ..self }),
    {
        let mut r = self;
        r.use_like = true;
        r
    }

    /// Checks and writes values with `func`.
    pub fn escape_handler(self, func: EscapeHandler) -> (r: Self)
        ensures
            r == (FieldConfig { escape_handler: Some(func), ..self }),
    {
        let mut r = self;
        r.escape_handler = Some(func);
        r
    }

    /// The literal for the token `input`: the value read by the field's codec,
    /// written back, in single quotes with quotes doubled when the handler
    /// quotes; `InvalidValue` when the token does not read.
    pub fn escape(&self, input: &str) -> (r: Result<String, Error>)
        ensures
            text_result(r) == escape_spec(*self, input@),
    {
        let h = match self.escape_handler {
            Some(h) => h,
            None => EscapeHandler { codec: Codec::Text, quoted: true },
        };
        match codec_render(h.codec, input) {
            Some(t) => if h.quoted {
                Ok(quote_literal(t.as_str()))
            } else {
                Ok(t)
            },
            None => {
                let accepted_type = match &self.declared_type {
                    Some(n) => n.clone(),
                    None => codec_label_exec(h.codec),
                };
                Err(Error::InvalidValue { field: self.field.clone(), accepted_type })
            },
        }
    }
}

/// A value escaped by a quoting field is a single literal: SQL reads back
/// the text its codec wrote, up to the closing quote, unless a quote follows
/// right after; for a field with no handler that text is the token itself.
pub proof fn lemma_escape_is_injection_safe(cfg: FieldConfig, input: Seq<char>, rest: Seq<char>)
    requires
        handler_of(cfg).quoted,
        escape_spec(cfg, input) is Ok,
        rest.len() == 0 || rest[0] != '\'',
    ensures
        ({
            let lit = escape_spec(cfg, input)->Ok_0;
            let t = codec_text(handler_of(cfg).codec, input)->0;
            &&& lit[0] == '\''
            &&& read_literal(lit.drop_first() + rest) == Some((t, lit.len() - 2))
            &&& cfg.escape_handler is None ==> t == input
        }),
{
    lemma_quote_is_injection_safe(codec_text(handler_of(cfg).codec, input)->0, rest);
}

} // verus!
