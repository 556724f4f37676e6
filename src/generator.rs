//! The registry of fields and the compiler from a filter tree to an SQL
//! predicate fragment.
use vstd::prelude::*;
use crate::ast::{Expr, OrderOperator, Query, exprs_of, expr_of, lemma_exprs_of_index};
use crate::config::{FieldConfig, escape_spec, output_name};
use crate::error::{Error, ErrorView, text_result, optional_text_result};
use crate::parser::{parse, parse_result, comparison_expr, is_space, lemma_skip_space};
use crate::escape::{double_quotes, quote, read_literal, lemma_quote_is_injection_safe};
use crate::text::push_char;

verus! {

/// Whether no two entries of `fields` share a name.
pub open spec fn names_unique(fields: Seq<FieldConfig>) -> bool {
    forall|i: int, j: int|
        0 <= i < fields.len() && 0 <= j < fields.len() && i != j
            ==> #[trigger] fields[i].field@ != #[trigger] fields[j].field@
}

/// The entry of `fields` named `name`, if any.
pub open spec fn lookup(fields: Seq<FieldConfig>, name: Seq<char>) -> Option<FieldConfig> {
    if exists|i: int| 0 <= i < fields.len() && fields[i].field@ == name {
        Some(fields[choose|i: int| 0 <= i < fields.len() && fields[i].field@ == name])
    } else {
        None
    }
}


/// `s` in parentheses.
pub open spec fn paren(s: Seq<char>) -> Seq<char> {
    "("@ + s + ")"@
}

/// The parts joined with `sep` between each two.
pub open spec fn join(parts: Seq<Seq<char>>, sep: Seq<char>) -> Seq<char>
    decreases parts.len(),
{
    if parts.len() == 0 {
        Seq::empty()
    } else if parts.len() == 1 {
        parts[0]
    } else {
        join(parts.drop_last(), sep) + sep + parts.last()
    }
}

/// `s` with `^`, `%` and `_` escaped by `^`, for a LIKE pattern.
pub open spec fn like_escape(s: Seq<char>) -> Seq<char>
    decreases s.len(),
{
    if s.len() == 0 {
        s
    } else if s.last() == '^' || s.last() == '%' || s.last() == '_' {
        like_escape(s.drop_last()) + seq!['^', s.last()]
    } else {
        like_escape(s.drop_last()).push(s.last())
    }
}

proof fn lemma_like_escape_concat(a: Seq<char>, b: Seq<char>)
    ensures
        like_escape(a + b) == like_escape(a) + like_escape(b),
    decreases b.len(),
{
    if b.len() == 0 {
        assert(a + b =~= a);
        assert(like_escape(a) + like_escape(b) =~= like_escape(a));
    } else {
        assert((a + b).drop_last() =~= a + b.drop_last());
        assert((a + b).last() == b.last());
        lemma_like_escape_concat(a, b.drop_last());
        assert(like_escape(a + b) =~= like_escape(a) + like_escape(b));
    }
}

proof fn lemma_like_escape_keeps_quotes(t: Seq<char>)
    ensures
        like_escape(double_quotes(t)) == double_quotes(like_escape(t)),
    decreases t.len(),
{
    if t.len() > 0 {
        let c = t.last();
        let init = t.drop_last();
        let e = like_escape(init);
        lemma_like_escape_keeps_quotes(init);
        if c == '\'' {
            assert(double_quotes(t) == double_quotes(init) + seq!['\'', '\'']);
            lemma_like_escape_single('\'');
            lemma_like_escape_concat(seq!['\''], seq!['\'']);
            assert(seq!['\''] + seq!['\''] =~= seq!['\'', '\'']);
            lemma_like_escape_concat(double_quotes(init), seq!['\'', '\'']);
            assert(like_escape(t) == e.push('\''));
            assert(e.push('\'').drop_last() =~= e);
            assert(double_quotes(e.push('\'')) == double_quotes(e) + seq!['\'', '\'']);
        } else {
            assert(double_quotes(t) == double_quotes(init).push(c));
            assert(double_quotes(init).push(c) =~= double_quotes(init) + seq![c]);
            lemma_like_escape_concat(double_quotes(init), seq![c]);
            lemma_like_escape_single(c);
            if c == '^' || c == '%' || c == '_' {
                assert(like_escape(t) == e + seq!['^', c]);
                lemma_double_quotes_push(e, '^');
                lemma_double_quotes_push(e.push('^'), c);
                assert(e + seq!['^', c] =~= e.push('^').push(c));
                assert(double_quotes(e) + seq!['^', c] =~= double_quotes(e).push('^').push(c));
            } else {
                assert(like_escape(t) == e.push(c));
                lemma_double_quotes_push(e, c);
                assert(double_quotes(e) + seq![c] =~= double_quotes(e).push(c));
            }
        }
    }
}

proof fn lemma_like_escape_single(c: char)
    ensures
        like_escape(seq![c]) == if c == '^' || c == '%' || c == '_' {
            seq!['^', c]
        } else {
            seq![c]
        },
{
    let one = seq![c];
    assert(one.drop_last() =~= Seq::<char>::empty());
    assert(like_escape(one.drop_last()) =~= Seq::<char>::empty());
    assert(one.last() == c);
    assert(like_escape(one) =~= if c == '^' || c == '%' || c == '_' {
        seq!['^', c]
    } else {
        seq![c]
    });
}

proof fn lemma_double_quotes_push(s: Seq<char>, c: char)
    requires
        c != '\'',
    ensures
        double_quotes(s.push(c)) == double_quotes(s).push(c),
{
    assert(s.push(c).drop_last() =~= s);
}

/// A substring pattern keeps the value inside its literal: SQL reads back
/// the value with its pattern characters escaped, up to the closing quote,
/// unless a quote follows right after.
pub proof fn lemma_like_literal_is_injection_safe(t: Seq<char>, rest: Seq<char>)
    requires
        rest.len() == 0 || rest[0] != '\'',
    ensures
        ({
            let lit = like_escape(quote(t));
            &&& lit[0] == '\''
            &&& read_literal(lit.drop_first() + rest) == Some((like_escape(t), lit.len() - 2))
        }),
{
    let body = double_quotes(t);
    lemma_like_escape_concat(seq!['\''] + body, seq!['\'']);
    lemma_like_escape_concat(seq!['\''], body);
    lemma_like_escape_single('\'');
    lemma_like_escape_keeps_quotes(t);
    assert(like_escape(quote(t)) =~= quote(like_escape(t)));
    lemma_quote_is_injection_safe(like_escape(t), rest);
}

/// The SQL text of an ordering operator.
pub open spec fn operator_text(op: OrderOperator) -> Seq<char> {
    match op {
        OrderOperator::Lt => "<"@,
        OrderOperator::Lte => "<="@,
        OrderOperator::Gt => ">"@,
        OrderOperator::Gte => ">="@,
    }
}

/// The name of an operation in errors: `None` is equality, `Some` ordering.
pub open spec fn operation_name(op: Option<OrderOperator>) -> Seq<char> {
    match op {
        None => "equal"@,
        Some(_) => "order"@,
    }
}

/// Whether `cfg` allows the operation.
pub open spec fn supports(cfg: FieldConfig, op: Option<OrderOperator>) -> bool {
    match op {
        None => cfg.partial_equal,
        Some(_) => cfg.partial_order,
    }
}

/// The comparison of `cfg` with the literal `lit`.
pub open spec fn comparison_text(cfg: FieldConfig, op: Option<OrderOperator>, lit: Seq<char>) -> Seq<char> {
    match op {
        None => if cfg.use_like {
            output_name(cfg) + " ILIKE '%' || "@ + like_escape(lit) + " || '%' ESCAPE '^'"@
        } else {
            output_name(cfg) + " = "@ + lit
        },
        Some(o) => output_name(cfg) + " "@ + operator_text(o) + " "@ + lit,
    }
}

/// The comparisons of a term without a field: one for each wildcard field
/// that allows the operation and reads the value, in registry order.
pub open spec fn wildcard_terms(
    fields: Seq<FieldConfig>,
    op: Option<OrderOperator>,
    value: Seq<char>,
) -> Seq<Seq<char>>
    decreases fields.len(),
{
    if fields.len() == 0 {
        Seq::empty()
    } else {
        let rest = wildcard_terms(fields.drop_last(), op, value);
        let cfg = fields.last();
        if cfg.wildcard && supports(cfg, op) && escape_spec(cfg, value) is Ok {
            rest.push(comparison_text(cfg, op, escape_spec(cfg, value)->Ok_0))
        } else {
            rest
        }
    }
}

/// The predicate of one comparison term, before it is parenthesized.
pub open spec fn compile_comparison(
    fields: Seq<FieldConfig>,
    field: Option<Seq<char>>,
    op: Option<OrderOperator>,
    value: Seq<char>,
) -> Result<Seq<char>, ErrorView> {
    match field {
        Some(name) => match lookup(fields, name) {
            None => Err(ErrorView::UnknownField { field: name }),
            Some(cfg) => if !supports(cfg, op) {
                Err(
                    ErrorView::UnsupportedOperation {
                        field: name,
                        required_operation: operation_name(op),
                    },
                )
            } else {
                match escape_spec(cfg, value) {
                    Ok(lit) => Ok(comparison_text(cfg, op, lit)),
                    Err(e) => Err(e),
                }
            },
        },
        None => {
            let terms = wildcard_terms(fields, op, value);
            if terms.len() == 0 {
                Err(ErrorView::EmptyWildcardOperation { required_operation: operation_name(op) })
            } else {
                Ok(join(terms, " OR "@))
            }
        },
    }
}

/// The predicate of a filter tree against the registry `fields`: each node
/// in its own parentheses, the first error in reading order otherwise.
pub open spec fn compile(fields: Seq<FieldConfig>, e: Expr) -> Result<Seq<char>, ErrorView>
    decreases e,
{
    match e {
        Expr::Or(qs) => if qs.len() == 0 {
            Ok(paren("TRUE"@))
        } else {
            match compile_all(fields, qs) {
                Ok(ps) => Ok(paren(join(ps, " OR "@))),
                Err(err) => Err(err),
            }
        },
        Expr::And(qs) => if qs.len() == 0 {
            Ok(paren("FALSE"@))
        } else {
            match compile_all(fields, qs) {
                Ok(ps) => Ok(paren(join(ps, " AND "@))),
                Err(err) => Err(err),
            }
        },
        Expr::Not(q) => match compile(fields, *q) {
            Ok(p) => Ok(paren("NOT "@ + p)),
            Err(err) => Err(err),
        },
        Expr::Equal(f, v) => match compile_comparison(fields, f, None, v) {
            Ok(p) => Ok(paren(p)),
            Err(err) => Err(err),
        },
        Expr::Order(f, o, v) => match compile_comparison(fields, f, Some(o), v) {
            Ok(p) => Ok(paren(p)),
            Err(err) => Err(err),
        },
    }
}

/// The predicates of `es`, in order, or the first error among them.
pub open spec fn compile_all(fields: Seq<FieldConfig>, es: Seq<Expr>) -> Result<
    Seq<Seq<char>>,
    ErrorView,
>
    decreases es,
{
    if es.len() == 0 {
        Ok(Seq::empty())
    } else {
        match compile_all(fields, es.drop_last()) {
            Ok(ps) => match compile(fields, es.last()) {
                Ok(p) => Ok(ps.push(p)),
                Err(err) => Err(err),
            },
            Err(err) => Err(err),
        }
    }
}

/// The views of a list of strings.
pub open spec fn views(v: Seq<String>) -> Seq<Seq<char>> {
    v.map_values(|s: String| s@)
}

/// Joins `parts` with `sep` between each two.
fn join_strings(parts: &Vec<String>, sep: &str) -> (r: String)
    ensures
        r@ == join(views(parts@), sep@),
{
    let mut out = String::new();
    let mut i: usize = 0;
    while i < parts.len()
        invariant
            i <= parts@.len(),
            out@ == join(views(parts@.take(i as int)), sep@),
        decreases parts@.len() - i,
    {
        proof {
            assert(views(parts@.take(i + 1)).drop_last() =~= views(parts@.take(i as int)));
        }
        if i > 0 {
            out.append(sep);
        } else {
            proof {
                assert(out@ =~= Seq::<char>::empty());
            }
        }
        out.append(parts[i].as_str());
        i = i + 1;
    }
    proof {
        assert(parts@.take(i as int) =~= parts@);
    }
    out
}


/// Appends `s` with `^`, `%` and `_` escaped by `^` to `out`.
fn push_like_escaped(out: &mut String, s: &str)
    ensures
        final(out)@ == old(out)@ + like_escape(s@),
{
    let cs = crate::text::chars_of(s);
    let mut i: usize = 0;
    while i < cs.len()
        invariant
            i <= cs@.len(),
            cs@ == s@,
            out@ == old(out)@ + like_escape(cs@.take(i as int)),
        decreases cs@.len() - i,
    {
        let c = cs[i];
        proof {
            assert(cs@.take(i + 1).drop_last() =~= cs@.take(i as int));
        }
        if c == '^' || c == '%' || c == '_' {
            push_char(out, '^');
        }
        push_char(out, c);
        proof {
            assert(out@ =~= old(out)@ + like_escape(cs@.take(i + 1)));
        }
        i = i + 1;
    }
    proof {
        assert(cs@.take(cs@.len() as int) =~= cs@);
    }
}

fn operator_str(op: OrderOperator) -> (r: &'static str)
    ensures
        r@ == operator_text(op),
{
    match op {
        OrderOperator::Lt => "<",
        OrderOperator::Lte => "<=",
        OrderOperator::Gt => ">",
        OrderOperator::Gte => ">=",
    }
}

fn operation_str(op: Option<OrderOperator>) -> (r: String)
    ensures
        r@ == operation_name(op),
{
    match op {
        None => String::from_str("equal"),
        Some(_) => String::from_str("order"),
    }
}

/// The comparison of `cfg` with the literal `lit`.
fn comparison(cfg: &FieldConfig, op: Option<OrderOperator>, lit: &String) -> (r: String)
    ensures
        r@ == comparison_text(*cfg, op, lit@),
{
    let mut out = match &cfg.rename {
        Some(r) => r.clone(),
        None => cfg.field.clone(),
    };
    match op {
        None => if cfg.use_like {
            out.append(" ILIKE '%' || ");
            push_like_escaped(&mut out, lit.as_str());
            out.append(" || '%' ESCAPE '^'");
        } else {
            out.append(" = ");
            out.append(lit.as_str());
        },
        Some(o) => {
            out.append(" ");
            out.append(operator_str(o));
            out.append(" ");
            out.append(lit.as_str());
        },
    }
    proof {
        assert(out@ =~= comparison_text(*cfg, op, lit@));
    }
    out
}


proof fn lemma_compile_all_error_stays(fields: Seq<FieldConfig>, es: Seq<Expr>, i: int)
    requires
        0 <= i <= es.len(),
        compile_all(fields, es.take(i)) is Err,
    ensures
        compile_all(fields, es) == compile_all(fields, es.take(i)),
    decreases es.len(),
{
    if i == es.len() {
        assert(es.take(i) =~= es);
    } else {
        assert(es.drop_last().take(i) =~= es.take(i));
        lemma_compile_all_error_stays(fields, es.drop_last(), i);
    }
}

/// Whether `cfg` takes part in a term without a field: it is a wildcard
/// field, allows the operation and reads the value.
pub open spec fn takes_part(cfg: FieldConfig, op: Option<OrderOperator>, value: Seq<char>) -> bool {
    cfg.wildcard && supports(cfg, op) && escape_spec(cfg, value) is Ok
}

proof fn lemma_wildcard_terms_none(fields: Seq<FieldConfig>, op: Option<OrderOperator>, value: Seq<char>)
    requires
        forall|j: int| 0 <= j < fields.len() ==> !takes_part(#[trigger] fields[j], op, value),
    ensures
        wildcard_terms(fields, op, value).len() == 0,
    decreases fields.len(),
{
    if fields.len() > 0 {
        assert(!takes_part(fields[fields.len() - 1], op, value));
        lemma_wildcard_terms_none(fields.drop_last(), op, value);
    }
}

proof fn lemma_wildcard_terms_single(
    fields: Seq<FieldConfig>,
    op: Option<OrderOperator>,
    value: Seq<char>,
    i: int,
)
    requires
        0 <= i < fields.len(),
        takes_part(fields[i], op, value),
        forall|j: int| 0 <= j < fields.len() && j != i ==> !takes_part(#[trigger] fields[j], op, value),
    ensures
        wildcard_terms(fields, op, value) == seq![
            comparison_text(fields[i], op, escape_spec(fields[i], value)->Ok_0),
        ],
    decreases fields.len(),
{
    let last = fields.len() - 1;
    if i == last {
        assert forall|j: int| 0 <= j < fields.drop_last().len() implies !takes_part(
            #[trigger] fields.drop_last()[j],
            op,
            value,
        ) by {
            assert(fields.drop_last()[j] == fields[j]);
        }
        lemma_wildcard_terms_none(fields.drop_last(), op, value);
        assert(wildcard_terms(fields, op, value) =~= seq![
            comparison_text(fields[i], op, escape_spec(fields[i], value)->Ok_0),
        ]);
    } else {
        assert(!takes_part(fields[last], op, value));
        assert forall|j: int| 0 <= j < fields.drop_last().len() && j != i implies !takes_part(
            #[trigger] fields.drop_last()[j],
            op,
            value,
        ) by {
            assert(fields.drop_last()[j] == fields[j]);
        }
        assert(fields.drop_last()[i] == fields[i]);
        lemma_wildcard_terms_single(fields.drop_last(), op, value, i);
    }
}

/// A term without a field whose value exactly one field takes compiles to
/// that field's comparison alone.
pub proof fn lemma_single_wildcard_field(
    fields: Seq<FieldConfig>,
    op: Option<OrderOperator>,
    value: Seq<char>,
    i: int,
)
    requires
        0 <= i < fields.len(),
        takes_part(fields[i], op, value),
        forall|j: int| 0 <= j < fields.len() && j != i ==> !takes_part(#[trigger] fields[j], op, value),
    ensures
        compile(fields, comparison_expr(None, op, value)) == Ok::<Seq<char>, ErrorView>(
            paren(comparison_text(fields[i], op, escape_spec(fields[i], value)->Ok_0)),
        ),
{
    lemma_wildcard_terms_single(fields, op, value, i);
    let terms = wildcard_terms(fields, op, value);
    assert(join(terms, " OR "@) == terms[0]);
}

/// A term without a field whose value no field takes fails with
/// `EmptyWildcardOperation`.
pub proof fn lemma_no_wildcard_field(fields: Seq<FieldConfig>, op: Option<OrderOperator>, value: Seq<char>)
    requires
        forall|j: int| 0 <= j < fields.len() ==> !takes_part(#[trigger] fields[j], op, value),
    ensures
        compile(fields, comparison_expr(None, op, value)) == Err::<Seq<char>, ErrorView>(
            ErrorView::EmptyWildcardOperation { required_operation: operation_name(op) },
        ),
{
    lemma_wildcard_terms_none(fields, op, value);
}

/// What compiling the text `input` gives: `None` when it holds only
/// whitespace, the predicate otherwise; or the first error.
pub open spec fn compile_input(fields: Seq<FieldConfig>, input: Seq<char>) -> Result<
    Option<Seq<char>>,
    ErrorView,
> {
    match parse_result(input) {
        Ok(None) => Ok(None),
        Ok(Some(e)) => match compile(fields, e) {
            Ok(p) => Ok(Some(p)),
            Err(err) => Err(err),
        },
        Err(err) => Err(err),
    }
}

/// Compiling is a function of the registry and the input: two runs on the
/// same ones give the same text or the same error.
pub proof fn lemma_compilation_is_deterministic(
    fields: Seq<FieldConfig>,
    input: Seq<char>,
    first: Result<Option<String>, Error>,
    second: Result<Option<String>, Error>,
)
    requires
        optional_text_result(first) == compile_input(fields, input),
        optional_text_result(second) == compile_input(fields, input),
    ensures
        optional_text_result(first) == optional_text_result(second),
{
}

/// A comparison that names a field absent from the registry fails with
/// `UnknownField`, whatever the operation and the value.
pub proof fn lemma_unknown_field(
    fields: Seq<FieldConfig>,
    name: Seq<char>,
    op: Option<OrderOperator>,
    value: Seq<char>,
)
    requires
        lookup(fields, name) is None,
    ensures
        compile(fields, comparison_expr(Some(name), op, value)) == Err::<Seq<char>, ErrorView>(
            ErrorView::UnknownField { field: name },
        ),
{
}

/// An ordering on a field registered without the order capability fails
/// with `UnsupportedOperation`, whatever the value.
pub proof fn lemma_order_needs_capability(
    fields: Seq<FieldConfig>,
    name: Seq<char>,
    op: OrderOperator,
    value: Seq<char>,
)
    requires
        lookup(fields, name) matches Some(cfg) && !cfg.partial_order,
    ensures
        compile(fields, Expr::Order(Some(name), op, value)) == Err::<Seq<char>, ErrorView>(
            ErrorView::UnsupportedOperation { field: name, required_operation: "order"@ },
        ),
{
}

/// Input made of whitespace alone compiles to no predicate.
pub proof fn lemma_blank_input(fields: Seq<FieldConfig>, input: Seq<char>)
    requires
        forall|i: int| 0 <= i < input.len() ==> is_space(#[trigger] input[i]),
    ensures
        compile_input(fields, input) == Ok::<Option<Seq<char>>, ErrorView>(None),
{
    lemma_skip_space(input, 0);
}

/// The fields a filter may name, in the order they were first registered.
pub struct QueryConfig {
    fields: Vec<FieldConfig>,
}

impl View for QueryConfig {
    type V = Seq<FieldConfig>;

    closed spec fn view(&self) -> Seq<FieldConfig> {
        self.fields@
    }
}

impl QueryConfig {
    /// Whether the registry is well formed: its names are unique.
    pub open spec fn wf(&self) -> bool {
        names_unique(self@)
    }

    /// An empty registry.
    pub fn new() -> (r: Self)
        ensures
            r@ == Seq::<FieldConfig>::empty(),
            r.wf(),
    {
        QueryConfig { fields: Vec::new() }
    }

    /// Registers `field`; an entry of the same name is replaced in place,
    /// otherwise the new entry comes last.
    pub fn field(self, field: FieldConfig) -> (r: Self)
        ensures
            match self.position(field.field@) {
                Some(i) => r@ == self@.update(i, field),
                None => r@ == self@.push(field),
            },
            self.wf() ==> r.wf(),
            self.wf() ==> lookup(r@, field.field@) == Some(field),
    {
        let mut fields = self.fields;
        let mut i: usize = 0;
        while i < fields.len()
            invariant
                i <= fields@.len(),
                fields@ == self@,
                forall|k: int| 0 <= k < i ==> (#[trigger] fields@[k]).field@ != field.field@,
            decreases fields@.len() - i,
        {
            if fields[i].field == field.field {
                proof {
                    assert(self.position(field.field@) == Some(i as int));
                }
                fields.set(i, field);
                let r = QueryConfig { fields };
                proof {
                    if self.wf() {
                        assert(r@[i as int] == field);
                        assert(lookup(r@, field.field@) == Some(field));
                    }
                }
                return r;
            }
            i = i + 1;
        }
        fields.push(field);
        let r = QueryConfig { fields };
        proof {
            assert(self.position(field.field@) is None);
            let n = self@.len() as int;
            assert(r@[n] == field);
            if self.wf() {
                assert(lookup(r@, field.field@) == Some(field));
            }
        }
        r
    }


    /// The entry named `name`, if any.
    pub fn get(&self, name: &String) -> (r: Option<&FieldConfig>)
        requires
            self.wf(),
        ensures
            match r {
                Some(c) => lookup(self@, name@) == Some(*c),
                None => lookup(self@, name@) is None,
            },
    {
        let mut i: usize = 0;
        while i < self.fields.len()
            invariant
                i <= self@.len(),
                self.fields@ == self@,
                self.wf(),
                forall|k: int| 0 <= k < i ==> (#[trigger] self@[k]).field@ != name@,
            decreases self@.len() - i,
        {
            if self.fields[i].field == *name {
                proof {
                    assert(self@[i as int].field@ == name@);
                    let j = choose|j: int| 0 <= j < self@.len() && self@[j].field@ == name@;
                    if j != i {
                        assert(self@[i as int].field@ != self@[j].field@);
                    }
                }
                return Some(&self.fields[i]);
            }
            i = i + 1;
        }
        None
    }

    /// The comparisons of a term without a field, in registry order.
    fn wildcard_comparisons(&self, op: Option<OrderOperator>, value: &String) -> (r: Vec<String>)
        ensures
            views(r@) == wildcard_terms(self@, op, value@),
    {
        let mut out: Vec<String> = Vec::new();
        let mut i: usize = 0;
        while i < self.fields.len()
            invariant
                i <= self@.len(),
                self.fields@ == self@,
                views(out@) == wildcard_terms(self@.take(i as int), op, value@),
            decreases self@.len() - i,
        {
            let cfg = &self.fields[i];
            let ghost before = self@.take(i as int);
            proof {
                assert(self@.take(i + 1).drop_last() =~= before);
                assert(self@.take(i + 1).last() == *cfg);
            }
            let allowed = match op {
                None => cfg.partial_equal,
                Some(_) => cfg.partial_order,
            };
            if cfg.wildcard && allowed {
                match cfg.escape(value.as_str()) {
                    Ok(lit) => {
                        let term = comparison(cfg, op, &lit);
                        let ghost prev = out@;
                        out.push(term);
                        proof {
                            assert(views(out@) =~= views(prev).push(term@));
                        }
                    },
                    Err(_) => {},
                }
            }
            i = i + 1;
        }
        proof {
            assert(self@.take(i as int) =~= self@);
        }
        out
    }


    /// The predicate of one comparison term, before it is parenthesized.
    fn comparison_to_postgres(
        &self,
        field: &Option<String>,
        op: Option<OrderOperator>,
        value: &String,
    ) -> (r: Result<String, Error>)
        requires
            self.wf(),
        ensures
            text_result(r) == compile_comparison(self@, crate::ast::name_view(*field), op, value@),
    {
        match field {
            Some(name) => match self.get(name) {
                None => Err(Error::UnknownField { field: name.clone() }),
                Some(cfg) => {
                    let allowed = match op {
                        None => cfg.partial_equal,
                        Some(_) => cfg.partial_order,
                    };
                    if !allowed {
                        return Err(
                            Error::UnsupportedOperation {
                                field: name.clone(),
                                required_operation: operation_str(op),
                            },
                        );
                    }
                    match cfg.escape(value.as_str()) {
                        Ok(lit) => Ok(comparison(cfg, op, &lit)),
                        Err(e) => Err(e),
                    }
                },
            },
            None => {
                let terms = self.wildcard_comparisons(op, value);
                if terms.len() == 0 {
                    Err(Error::EmptyWildcardOperation { required_operation: operation_str(op) })
                } else {
                    Ok(join_strings(&terms, " OR "))
                }
            },
        }
    }

    /// Compiles each of `queries` and joins the predicates with `sep`; the
    /// first error stops the work.
    fn list_to_postgres(&self, queries: &Vec<Query>, sep: &str) -> (r: Result<String, Error>)
        requires
            self.wf(),
        ensures
            match compile_all(self@, exprs_of(queries@)) {
                Ok(ps) => r matches Ok(s) && s@ == join(ps, sep@),
                Err(e) => r matches Err(err) && err@ == e,
            },
        decreases queries,
    {
        let ghost es = exprs_of(queries@);
        proof {
            lemma_exprs_of_index(queries@);
        }
        let mut parts: Vec<String> = Vec::new();
        let mut i: usize = 0;
        proof {
            assert(es.take(0) =~= Seq::<Expr>::empty());
            assert(views(parts@) =~= Seq::<Seq<char>>::empty());
        }
        while i < queries.len()
            invariant
                i <= queries@.len(),
                self.wf(),
                es == exprs_of(queries@),
                es.len() == queries@.len(),
                forall|k: int| 0 <= k < queries@.len() ==> #[trigger] es[k] == expr_of(queries@[k]),
                compile_all(self@, es.take(i as int)) == Ok::<Seq<Seq<char>>, ErrorView>(views(parts@)),
            decreases queries@.len() - i,
        {
            proof {
                assert(es.take(i + 1).drop_last() =~= es.take(i as int));
                assert(es.take(i + 1).last() == es[i as int]);
            }
            match self.query_to_postgres(&queries[i]) {
                Ok(p) => {
                    let ghost prev = parts@;
                    parts.push(p);
                    proof {
                        assert(views(parts@) =~= views(prev).push(p@));
                    }
                },
                Err(e) => {
                    proof {
                        lemma_compile_all_error_stays(self@, es, i + 1);
                    }
                    return Err(e);
                },
            }
            i = i + 1;
        }
        proof {
            assert(es.take(i as int) =~= es);
        }
        Ok(join_strings(&parts, sep))
    }

    /// The predicate of a filter tree: each node in its own parentheses;
    /// the first error in reading order otherwise.
    pub fn query_to_postgres(&self, query: &Query) -> (r: Result<String, Error>)
        requires
            self.wf(),
        ensures
            text_result(r) == compile(self@, query@),
        decreases query,
    {
        let body = match query {
            Query::Or { queries } => if queries.len() == 0 {
                String::from_str("TRUE")
            } else {
                match self.list_to_postgres(queries, " OR ") {
                    Ok(s) => s,
                    Err(e) => return Err(e),
                }
            },
            Query::And { queries } => if queries.len() == 0 {
                String::from_str("FALSE")
            } else {
                match self.list_to_postgres(queries, " AND ") {
                    Ok(s) => s,
                    Err(e) => return Err(e),
                }
            },
            Query::Not { query } => match self.query_to_postgres(query) {
                Ok(s) => {
                    let mut out = String::from_str("NOT ");
                    out.append(s.as_str());
                    out
                },
                Err(e) => return Err(e),
            },
            Query::Equal { field, value } => match self.comparison_to_postgres(field, None, value) {
                Ok(s) => s,
                Err(e) => return Err(e),
            },
            Query::Order { field, operator, value } => match self.comparison_to_postgres(
                field,
                Some(*operator),
                value,
            ) {
                Ok(s) => s,
                Err(e) => return Err(e),
            },
        };
        let mut out = String::from_str("(");
        out.append(body.as_str());
        out.append(")");
        proof {
            assert(out@ =~= paren(body@));
        }
        Ok(out)
    }

    /// Parses `input` and compiles it: `None` when it holds only whitespace,
    /// the predicate otherwise; or the first error.
    pub fn parse_to_postgres(&self, input: &str) -> (r: Result<Option<String>, Error>)
        requires
            self.wf(),
        ensures
            optional_text_result(r) == compile_input(self@, input@),
    {
        match parse(input) {
            Ok(Some(q)) => match self.query_to_postgres(&q) {
                Ok(s) => Ok(Some(s)),
                Err(e) => Err(e),
            },
            Ok(None) => Ok(None),
            Err(e) => Err(e),
        }
    }

    /// The index of the entry named `name`, if any.
    pub open spec fn position(&self, name: Seq<char>) -> Option<int> {
        if exists|i: int| 0 <= i < self@.len() && self@[i].field@ == name {
            Some(choose|i: int| 0 <= i < self@.len() && self@[i].field@ == name && forall|k: int| 0 <= k < i ==> self@[k].field@ != name)
        } else {
            None
        }
    }
}

} // verus!
