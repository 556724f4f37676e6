//! The grammar of filters, and a recursive-descent parser for it.
//!
//! ```text
//! input       := space* (disjunction space*)?
//! disjunction := conjunction (space+ conjunction)*
//! conjunction := atom (space+ "and" space+ atom)*
//! atom        := "(" space* disjunction space* ")"
//!              | "not" space+ atom
//!              | comparison
//! comparison  := (name | "*") space* operator space* value
//!              | value
//! operator    := ":" | "<" | "<=" | ">" | ">="
//! value       := '"' (any but '"' or '\' | '\' any)* '"'
//!              | (any but space, '(', ')' or '"')+
//! name        := (letter | "_") (letter | digit | "_")*
//! ```
//!
//! Where an alternative fails the next one is tried from the same place; a
//! bare value is the last resort of a comparison. A term without a field
//! (`*` or a bare value) applies to every wildcard field.
use vstd::prelude::*;
use crate::ast::{Expr, OrderOperator, Query, exprs_of, lemma_exprs_of_index, lemma_exprs_of_push};
use crate::error::{Error, ErrorView};
use crate::text::{push_char, chars_of, byte_offset, utf8_len};
use crate::number::is_digit;

verus! {

pub open spec fn is_space(c: char) -> bool {
    c == ' ' || c == '\t' || c == '\n' || c == '\r'
}

pub open spec fn is_name_start(c: char) -> bool {
    ('a' <= c && c <= 'z') || ('A' <= c && c <= 'Z') || c == '_'
}

pub open spec fn is_name_char(c: char) -> bool {
    is_name_start(c) || is_digit(c)
}

pub open spec fn is_bare_char(c: char) -> bool {
    !is_space(c) && c != '(' && c != ')' && c != '"'
}

/// The first position at or after `p` that holds no whitespace.
pub open spec fn skip_space(s: Seq<char>, p: int) -> int
    decreases s.len() - p,
{
    if 0 <= p < s.len() && is_space(s[p]) {
        skip_space(s, p + 1)
    } else {
        p
    }
}

/// The end of the run of name characters that starts at `p`.
pub open spec fn name_end(s: Seq<char>, p: int) -> int
    decreases s.len() - p,
{
    if 0 <= p < s.len() && is_name_char(s[p]) {
        name_end(s, p + 1)
    } else {
        p
    }
}

/// The end of the run of bare-value characters that starts at `p`.
pub open spec fn bare_end(s: Seq<char>, p: int) -> int
    decreases s.len() - p,
{
    if 0 <= p < s.len() && is_bare_char(s[p]) {
        bare_end(s, p + 1)
    } else {
        p
    }
}

/// The rest of a quoted value from `p` on, after the characters `acc`:
/// the unescaped text and the position after the closing quote.
pub open spec fn quoted_rest(s: Seq<char>, p: int, acc: Seq<char>) -> Option<(Seq<char>, int)>
    decreases s.len() - p,
{
    if p < 0 || p >= s.len() {
        None
    } else if s[p] == '"' {
        Some((acc, p + 1))
    } else if s[p] == '\\' {
        if p + 1 < s.len() {
            quoted_rest(s, p + 2, acc.push(s[p + 1]))
        } else {
            None
        }
    } else {
        quoted_rest(s, p + 1, acc.push(s[p]))
    }
}

/// The value token at `p` and the position after it.
pub open spec fn value_at(s: Seq<char>, p: int) -> Option<(Seq<char>, int)> {
    if 0 <= p < s.len() && s[p] == '"' {
        quoted_rest(s, p + 1, Seq::empty())
    } else {
        let q = bare_end(s, p);
        if q > p {
            Some((s.subrange(p, q), q))
        } else {
            None
        }
    }
}

/// The operator at `p` (`None` is equality) and the position after it.
pub open spec fn operator_at(s: Seq<char>, p: int) -> Option<(Option<OrderOperator>, int)> {
    if 0 <= p < s.len() {
        let follows_eq = p + 1 < s.len() && s[p + 1] == '=';
        if s[p] == ':' {
            Some((None, p + 1))
        } else if s[p] == '<' {
            if follows_eq {
                Some((Some(OrderOperator::Lte), p + 2))
            } else {
                Some((Some(OrderOperator::Lt), p + 1))
            }
        } else if s[p] == '>' {
            if follows_eq {
                Some((Some(OrderOperator::Gte), p + 2))
            } else {
                Some((Some(OrderOperator::Gt), p + 1))
            }
        } else {
            None
        }
    } else {
        None
    }
}

/// The field of a comparison at `p` (`None` for `*`) and the position after it.
pub open spec fn field_at(s: Seq<char>, p: int) -> Option<(Option<Seq<char>>, int)> {
    if 0 <= p < s.len() && s[p] == '*' {
        Some((None, p + 1))
    } else if 0 <= p < s.len() && is_name_start(s[p]) {
        let q = name_end(s, p + 1);
        Some((Some(s.subrange(p, q)), q))
    } else {
        None
    }
}

/// Whether the keyword `kw` stands at `p`, followed by whitespace.
pub open spec fn keyword_at(s: Seq<char>, p: int, kw: Seq<char>) -> bool {
    &&& 0 <= p
    &&& p + kw.len() < s.len()
    &&& s.subrange(p, p + kw.len()) == kw
    &&& is_space(s[p + kw.len()])
}

pub open spec fn and_keyword() -> Seq<char> {
    seq!['a', 'n', 'd']
}

pub open spec fn not_keyword() -> Seq<char> {
    seq!['n', 'o', 't']
}

/// The term of a comparison.
pub open spec fn comparison_expr(f: Option<Seq<char>>, op: Option<OrderOperator>, v: Seq<char>) -> Expr {
    match op {
        None => Expr::Equal(f, v),
        Some(o) => Expr::Order(f, o, v),
    }
}

/// A bare value at `p`, as a comparison with every wildcard field.
pub open spec fn bare_comparison(s: Seq<char>, p: int) -> Result<(Expr, int), int> {
    match value_at(s, p) {
        Some((v, q)) => Ok((Expr::Equal(None, v), q)),
        None => Err(p),
    }
}

/// A comparison at `p`, and the position after it; or where it fails.
pub open spec fn comparison_at(s: Seq<char>, p: int) -> Result<(Expr, int), int> {
    match field_at(s, p) {
        Some((f, q)) => match operator_at(s, skip_space(s, q)) {
            Some((op, t)) => {
                let u = skip_space(s, t);
                match value_at(s, u) {
                    Some((v, w)) => Ok((comparison_expr(f, op, v), w)),
                    None => Err(u),
                }
            },
            None => bare_comparison(s, p),
        },
        None => bare_comparison(s, p),
    }
}

/// The single term of `es`, or the disjunction of its terms.
pub open spec fn collapse_or(es: Seq<Expr>) -> Expr {
    if es.len() == 1 {
        es[0]
    } else {
        Expr::Or(es)
    }
}

/// The single term of `es`, or the conjunction of its terms.
pub open spec fn collapse_and(es: Seq<Expr>) -> Expr {
    if es.len() == 1 {
        es[0]
    } else {
        Expr::And(es)
    }
}

pub proof fn lemma_skip_space(s: Seq<char>, p: int)
    requires
        0 <= p <= s.len(),
    ensures
        p <= skip_space(s, p) <= s.len(),
        skip_space(s, p) < s.len() ==> !is_space(s[skip_space(s, p)]),
        forall|k: int| p <= k < skip_space(s, p) ==> is_space(#[trigger] s[k]),
    decreases s.len() - p,
{
    if p < s.len() && is_space(s[p]) {
        lemma_skip_space(s, p + 1);
    }
}

/// An atom at `p`, and the position after it; or where it fails.
pub open spec fn atom_at(s: Seq<char>, p: int) -> Result<(Expr, int), int>
    decreases s.len() - p, 0nat,
{
    if !(0 <= p <= s.len()) {
        Err(p)
    } else if p < s.len() && s[p] == '(' {
        proof {
            lemma_skip_space(s, p + 1);
        }
        match disjunction_at(s, skip_space(s, p + 1)) {
            Ok((e, q)) => {
                let r = skip_space(s, q);
                if 0 <= r < s.len() && s[r] == ')' {
                    Ok((e, r + 1))
                } else {
                    Err(r)
                }
            },
            Err(x) => Err(x),
        }
    } else if keyword_at(s, p, not_keyword()) {
        proof {
            lemma_skip_space(s, p + 3);
        }
        match atom_at(s, skip_space(s, p + 3)) {
            Ok((e, q)) => Ok((Expr::Not(Box::new(e)), q)),
            Err(_) => comparison_at(s, p),
        }
    } else {
        comparison_at(s, p)
    }
}

/// The conjunction that goes on after the atoms `es`, which end at `p`.
pub open spec fn conjunction_rest(s: Seq<char>, p: int, es: Seq<Expr>) -> Result<(Expr, int), int>
    decreases s.len() - p, 1nat,
{
    if !(0 <= p <= s.len()) {
        Err(p)
    } else {
        proof {
            lemma_skip_space(s, p);
        }
        let r = skip_space(s, p);
        if r > p && keyword_at(s, r, and_keyword()) {
            proof {
                lemma_skip_space(s, r + 3);
            }
            match atom_at(s, skip_space(s, r + 3)) {
                Ok((e, q)) => if p < q <= s.len() {
                    conjunction_rest(s, q, es.push(e))
                } else {
                    Err(q)
                },
                Err(_) => Ok((collapse_and(es), p)),
            }
        } else {
            Ok((collapse_and(es), p))
        }
    }
}

/// A conjunction at `p`, and the position after it; or where it fails.
pub open spec fn conjunction_at(s: Seq<char>, p: int) -> Result<(Expr, int), int>
    decreases s.len() - p, 2nat,
{
    match atom_at(s, p) {
        Ok((e, q)) => if p < q <= s.len() {
            conjunction_rest(s, q, seq![e])
        } else {
            Err(q)
        },
        Err(x) => Err(x),
    }
}

/// The disjunction that goes on after the conjunctions `es`, which end at `p`.
pub open spec fn disjunction_rest(s: Seq<char>, p: int, es: Seq<Expr>) -> Result<(Expr, int), int>
    decreases s.len() - p, 3nat,
{
    if !(0 <= p <= s.len()) {
        Err(p)
    } else {
        proof {
            lemma_skip_space(s, p);
        }
        let r = skip_space(s, p);
        if r > p && r < s.len() {
            match conjunction_at(s, r) {
                Ok((e, q)) => if p < q <= s.len() {
                    disjunction_rest(s, q, es.push(e))
                } else {
                    Err(q)
                },
                Err(_) => Ok((collapse_or(es), p)),
            }
        } else {
            Ok((collapse_or(es), p))
        }
    }
}

/// A disjunction at `p`, and the position after it; or where it fails.
pub open spec fn disjunction_at(s: Seq<char>, p: int) -> Result<(Expr, int), int>
    decreases s.len() - p, 4nat,
{
    match conjunction_at(s, p) {
        Ok((e, q)) => if p < q <= s.len() {
            disjunction_rest(s, q, seq![e])
        } else {
            Err(q)
        },
        Err(x) => Err(x),
    }
}

/// What a whole input parses to: `None` when it holds only whitespace,
/// the filter otherwise; or the character position where parsing stalls.
pub open spec fn parse_spec(s: Seq<char>) -> Result<Option<Expr>, int> {
    let p = skip_space(s, 0);
    if p >= s.len() {
        Ok(None)
    } else {
        match disjunction_at(s, p) {
            Ok((e, q)) => if skip_space(s, q) == s.len() {
                Ok(Some(e))
            } else {
                Err(skip_space(s, q))
            },
            Err(x) => Err(x),
        }
    }
}

/// Whether the parser's result `r` is the grammar's result `g`.
pub open spec fn parsed(r: Result<(Query, usize), usize>, g: Result<(Expr, int), int>) -> bool {
    match g {
        Ok((e, q)) => r matches Ok((t, rq)) && t@ == e && rq == q,
        Err(x) => r matches Err(y) && y == x,
    }
}

/// Whether a failure is reported at a position within `s`.
pub open spec fn bounded(r: Result<(Query, usize), usize>, s: Seq<char>) -> bool {
    r matches Err(x) ==> x <= s.len()
}

/// Whether a successful result ends after `p` and within `s`.
pub open spec fn advances(r: Result<(Query, usize), usize>, p: int, s: Seq<char>) -> bool {
    r matches Ok((_, q)) ==> p < q <= s.len()
}

fn is_space_exec(c: char) -> (r: bool)
    ensures
        r == is_space(c),
{
    c == ' ' || c == '\t' || c == '\n' || c == '\r'
}

fn is_name_start_exec(c: char) -> (r: bool)
    ensures
        r == is_name_start(c),
{
    ('a' <= c && c <= 'z') || ('A' <= c && c <= 'Z') || c == '_'
}

fn is_name_char_exec(c: char) -> (r: bool)
    ensures
        r == is_name_char(c),
{
    is_name_start_exec(c) || ('0' <= c && c <= '9')
}

fn is_bare_char_exec(c: char) -> (r: bool)
    ensures
        r == is_bare_char(c),
{
    !is_space_exec(c) && c != '(' && c != ')' && c != '"'
}

fn skip_space_exec(s: &Vec<char>, p: usize) -> (r: usize)
    requires
        p <= s@.len(),
    ensures
        r == skip_space(s@, p as int),
{
    let mut i = p;
    while i < s.len() && is_space_exec(s[i])
        invariant
            p <= i <= s@.len(),
            skip_space(s@, p as int) == skip_space(s@, i as int),
        decreases s@.len() - i,
    {
        i = i + 1;
    }
    i
}

fn name_end_exec(s: &Vec<char>, p: usize) -> (r: usize)
    requires
        p <= s@.len(),
    ensures
        r == name_end(s@, p as int),
        p <= r <= s@.len(),
{
    let mut i = p;
    while i < s.len() && is_name_char_exec(s[i])
        invariant
            p <= i <= s@.len(),
            name_end(s@, p as int) == name_end(s@, i as int),
        decreases s@.len() - i,
    {
        i = i + 1;
    }
    i
}

fn bare_end_exec(s: &Vec<char>, p: usize) -> (r: usize)
    requires
        p <= s@.len(),
    ensures
        r == bare_end(s@, p as int),
        p <= r <= s@.len(),
{
    let mut i = p;
    while i < s.len() && is_bare_char_exec(s[i])
        invariant
            p <= i <= s@.len(),
            bare_end(s@, p as int) == bare_end(s@, i as int),
        decreases s@.len() - i,
    {
        i = i + 1;
    }
    i
}

/// The characters `s[p..q]` as a string.
fn slice_string(s: &Vec<char>, p: usize, q: usize) -> (r: String)
    requires
        p <= q <= s@.len(),
    ensures
        r@ == s@.subrange(p as int, q as int),
{
    let mut r = String::new();
    let mut i = p;
    while i < q
        invariant
            p <= i <= q <= s@.len(),
            r@ == s@.subrange(p as int, i as int),
        decreases q - i,
    {
        push_char(&mut r, s[i]);
        proof {
            assert(r@ =~= s@.subrange(p as int, i + 1));
        }
        i = i + 1;
    }
    r
}

fn quoted_rest_exec(s: &Vec<char>, p: usize) -> (r: Option<(String, usize)>)
    requires
        p <= s@.len(),
    ensures
        match quoted_rest(s@, p as int, Seq::empty()) {
            Some((v, q)) => r matches Some((t, rq)) && t@ == v && rq == q && p < q <= s@.len(),
            None => r is None,
        },
{
    let mut acc = String::new();
    let mut i = p;
    while i < s.len()
        invariant
            p <= i <= s@.len(),
            quoted_rest(s@, p as int, Seq::empty()) == quoted_rest(s@, i as int, acc@),
        decreases s@.len() - i,
    {
        let c = s[i];
        if c == '"' {
            return Some((acc, i + 1));
        } else if c == '\\' {
            if i + 1 < s.len() {
                push_char(&mut acc, s[i + 1]);
                i = i + 2;
            } else {
                return None;
            }
        } else {
            push_char(&mut acc, c);
            i = i + 1;
        }
    }
    None
}

fn value_at_exec(s: &Vec<char>, p: usize) -> (r: Option<(String, usize)>)
    requires
        p <= s@.len(),
    ensures
        match value_at(s@, p as int) {
            Some((v, q)) => r matches Some((t, rq)) && t@ == v && rq == q && p < q <= s@.len(),
            None => r is None,
        },
{
    if p < s.len() && s[p] == '"' {
        quoted_rest_exec(s, p + 1)
    } else {
        let q = bare_end_exec(s, p);
        if q > p {
            Some((slice_string(s, p, q), q))
        } else {
            None
        }
    }
}

fn operator_at_exec(s: &Vec<char>, p: usize) -> (r: Option<(Option<OrderOperator>, usize)>)
    requires
        p <= s@.len(),
    ensures
        match operator_at(s@, p as int) {
            Some((op, q)) => r matches Some((rop, rq)) && rop == op && rq == q && q <= s@.len(),
            None => r is None,
        },
{
    if p >= s.len() {
        return None;
    }
    let follows_eq = p + 1 < s.len() && s[p + 1] == '=';
    let c = s[p];
    if c == ':' {
        Some((None, p + 1))
    } else if c == '<' {
        if follows_eq {
            Some((Some(OrderOperator::Lte), p + 2))
        } else {
            Some((Some(OrderOperator::Lt), p + 1))
        }
    } else if c == '>' {
        if follows_eq {
            Some((Some(OrderOperator::Gte), p + 2))
        } else {
            Some((Some(OrderOperator::Gt), p + 1))
        }
    } else {
        None
    }
}

fn field_at_exec(s: &Vec<char>, p: usize) -> (r: Option<(Option<String>, usize)>)
    requires
        p <= s@.len(),
    ensures
        match field_at(s@, p as int) {
            Some((f, q)) => r matches Some((t, rq)) && crate::ast::name_view(t) == f && rq == q
                && p < q <= s@.len(),
            None => r is None,
        },
{
    if p < s.len() && s[p] == '*' {
        Some((None, p + 1))
    } else if p < s.len() && is_name_start_exec(s[p]) {
        let q = name_end_exec(s, p + 1);
        Some((Some(slice_string(s, p, q)), q))
    } else {
        None
    }
}

fn keyword_at_exec(s: &Vec<char>, p: usize, a: char, b: char, c: char) -> (r: bool)
    requires
        p <= s@.len(),
    ensures
        r == keyword_at(s@, p as int, seq![a, b, c]),
        r ==> p + 3 < s@.len(),
{
    if p < s.len() && s.len() - p > 3 && s[p] == a && s[p + 1] == b && s[p + 2] == c && is_space_exec(s[p + 3]) {
        proof {
            assert(s@.subrange(p as int, p + 3) =~= seq![a, b, c]);
        }
        true
    } else {
        proof {
            if p + 3 < s@.len() && s@.subrange(p as int, p + 3) == seq![a, b, c] {
                assert(s@.subrange(p as int, p + 3)[0] == s@[p as int]);
                assert(s@.subrange(p as int, p + 3)[1] == s@[p + 1]);
                assert(s@.subrange(p as int, p + 3)[2] == s@[p + 2]);
            }
        }
        false
    }
}

fn comparison_query(f: Option<String>, op: Option<OrderOperator>, v: String) -> (r: Query)
    ensures
        r@ == comparison_expr(crate::ast::name_view(f), op, v@),
{
    match op {
        None => Query::Equal { field: f, value: v },
        Some(o) => Query::Order { field: f, operator: o, value: v },
    }
}

fn bare_comparison_exec(s: &Vec<char>, p: usize) -> (r: Result<(Query, usize), usize>)
    requires
        p <= s@.len(),
    ensures
        bounded(r, s@),
        parsed(r, bare_comparison(s@, p as int)),
        advances(r, p as int, s@),
{
    match value_at_exec(s, p) {
        Some((v, q)) => Ok((Query::Equal { field: None, value: v }, q)),
        None => Err(p),
    }
}

fn comparison_at_exec(s: &Vec<char>, p: usize) -> (r: Result<(Query, usize), usize>)
    requires
        p <= s@.len(),
    ensures
        bounded(r, s@),
        parsed(r, comparison_at(s@, p as int)),
        advances(r, p as int, s@),
{
    match field_at_exec(s, p) {
        Some((f, q)) => {
            let r = skip_space_exec(s, q);
            proof {
                lemma_skip_space(s@, q as int);
            }
            match operator_at_exec(s, r) {
                Some((op, t)) => {
                    let u = skip_space_exec(s, t);
                    proof {
                        lemma_skip_space(s@, t as int);
                    }
                    match value_at_exec(s, u) {
                        Some((v, w)) => Ok((comparison_query(f, op, v), w)),
                        None => Err(u),
                    }
                },
                None => bare_comparison_exec(s, p),
            }
        },
        None => bare_comparison_exec(s, p),
    }
}

fn collapse_exec(es: Vec<Query>, disjunction: bool) -> (r: Query)
    requires
        es@.len() >= 1,
    ensures
        r@ == if disjunction {
            collapse_or(exprs_of(es@))
        } else {
            collapse_and(exprs_of(es@))
        },
{
    proof {
        lemma_exprs_of_index(es@);
    }
    if es.len() == 1 {
        let mut es = es;
        es.remove(0)
    } else if disjunction {
        Query::Or { queries: es }
    } else {
        Query::And { queries: es }
    }
}

fn atom_at_exec(s: &Vec<char>, p: usize) -> (r: Result<(Query, usize), usize>)
    requires
        p <= s@.len(),
    ensures
        bounded(r, s@),
        parsed(r, atom_at(s@, p as int)),
        advances(r, p as int, s@),
    decreases s@.len() - p, 0nat,
{
    if p < s.len() && s[p] == '(' {
        let start = skip_space_exec(s, p + 1);
        proof {
            lemma_skip_space(s@, p + 1);
        }
        match disjunction_at_exec(s, start) {
            Ok((e, q)) => {
                let r = skip_space_exec(s, q);
                proof {
                    lemma_skip_space(s@, q as int);
                }
                if r < s.len() && s[r] == ')' {
                    Ok((e, r + 1))
                } else {
                    Err(r)
                }
            },
            Err(x) => Err(x),
        }
    } else if keyword_at_exec(s, p, 'n', 'o', 't') {
        let start = skip_space_exec(s, p + 3);
        proof {
            lemma_skip_space(s@, p + 3);
        }
        match atom_at_exec(s, start) {
            Ok((e, q)) => Ok((Query::Not { query: Box::new(e) }, q)),
            Err(_) => comparison_at_exec(s, p),
        }
    } else {
        comparison_at_exec(s, p)
    }
}

fn conjunction_rest_exec(s: &Vec<char>, p: usize, es: Vec<Query>) -> (r: Result<(Query, usize), usize>)
    requires
        p <= s@.len(),
        es@.len() >= 1,
    ensures
        bounded(r, s@),
        parsed(r, conjunction_rest(s@, p as int, exprs_of(es@))),
        r matches Ok((_, q)) ==> p <= q <= s@.len(),
    decreases s@.len() - p, 1nat,
{
    let k = skip_space_exec(s, p);
    proof {
        lemma_skip_space(s@, p as int);
    }
    if k > p && k < s.len() && keyword_at_exec(s, k, 'a', 'n', 'd') {
        let start = skip_space_exec(s, k + 3);
        proof {
            lemma_skip_space(s@, k + 3);
        }
        match atom_at_exec(s, start) {
            Ok((e, q)) => {
                let ghost prev = es@;
                let mut es = es;
                es.push(e);
                proof {
                    lemma_exprs_of_push(prev, e);
                }
                conjunction_rest_exec(s, q, es)
            },
            Err(_) => Ok((collapse_exec(es, false), p)),
        }
    } else {
        Ok((collapse_exec(es, false), p))
    }
}

fn conjunction_at_exec(s: &Vec<char>, p: usize) -> (r: Result<(Query, usize), usize>)
    requires
        p <= s@.len(),
    ensures
        bounded(r, s@),
        parsed(r, conjunction_at(s@, p as int)),
        advances(r, p as int, s@),
    decreases s@.len() - p, 2nat,
{
    match atom_at_exec(s, p) {
        Ok((e, q)) => {
            let ghost ee = e@;
            let es = vec![e];
            proof {
                assert(es@ =~= Seq::<Query>::empty().push(e));
                lemma_exprs_of_push(Seq::<Query>::empty(), e);
                assert(exprs_of(es@) =~= seq![ee]);
            }
            conjunction_rest_exec(s, q, es)
        },
        Err(x) => Err(x),
    }
}

fn disjunction_rest_exec(s: &Vec<char>, p: usize, es: Vec<Query>) -> (r: Result<(Query, usize), usize>)
    requires
        p <= s@.len(),
        es@.len() >= 1,
    ensures
        bounded(r, s@),
        parsed(r, disjunction_rest(s@, p as int, exprs_of(es@))),
        r matches Ok((_, q)) ==> p <= q <= s@.len(),
    decreases s@.len() - p, 3nat,
{
    let k = skip_space_exec(s, p);
    proof {
        lemma_skip_space(s@, p as int);
    }
    if k > p && k < s.len() {
        match conjunction_at_exec(s, k) {
            Ok((e, q)) => {
                let ghost prev = es@;
                let mut es = es;
                es.push(e);
                proof {
                    lemma_exprs_of_push(prev, e);
                }
                disjunction_rest_exec(s, q, es)
            },
            Err(_) => Ok((collapse_exec(es, true), p)),
        }
    } else {
        Ok((collapse_exec(es, true), p))
    }
}

fn disjunction_at_exec(s: &Vec<char>, p: usize) -> (r: Result<(Query, usize), usize>)
    requires
        p <= s@.len(),
    ensures
        bounded(r, s@),
        parsed(r, disjunction_at(s@, p as int)),
        advances(r, p as int, s@),
    decreases s@.len() - p, 4nat,
{
    match conjunction_at_exec(s, p) {
        Ok((e, q)) => {
            let ghost ee = e@;
            let es = vec![e];
            proof {
                assert(es@ =~= Seq::<Query>::empty().push(e));
                lemma_exprs_of_push(Seq::<Query>::empty(), e);
                assert(exprs_of(es@) =~= seq![ee]);
            }
            disjunction_rest_exec(s, q, es)
        },
        Err(x) => Err(x),
    }
}

/// Parses the characters `s`: `None` when they hold only whitespace, the
/// filter otherwise; or the character position where parsing stalls.
pub fn parse_chars(s: &Vec<char>) -> (r: Result<Option<Query>, usize>)
    ensures
        match parse_spec(s@) {
            Ok(None) => r matches Ok(None),
            Ok(Some(e)) => r matches Ok(Some(q)) && q@ == e,
            Err(x) => r matches Err(y) && y == x,
        },
        r matches Err(y) ==> y <= s@.len(),
{
    let p = skip_space_exec(s, 0);
    proof {
        lemma_skip_space(s@, 0);
    }
    if p >= s.len() {
        return Ok(None);
    }
    match disjunction_at_exec(s, p) {
        Ok((e, q)) => {
            let r = skip_space_exec(s, q);
            proof {
                lemma_skip_space(s@, q as int);
            }
            if r == s.len() {
                Ok(Some(e))
            } else {
                Err(r)
            }
        },
        Err(x) => Err(x),
    }
}

/// What parsing the text `s` gives: `None` when it holds only whitespace,
/// the filter otherwise; or a syntax error at the byte offset where parsing
/// stalls.
pub open spec fn parse_result(s: Seq<char>) -> Result<Option<Expr>, ErrorView> {
    match parse_spec(s) {
        Ok(e) => Ok(e),
        Err(p) => Err(ErrorView::ParseError { pos: utf8_len(s.take(p)) }),
    }
}

/// Parses a filter: `None` when the input holds only whitespace.
pub fn parse(input: &str) -> (r: Result<Option<Query>, Error>)
    ensures
        match parse_result(input@) {
            Ok(None) => r matches Ok(None),
            Ok(Some(e)) => r matches Ok(Some(q)) && q@ == e,
            Err(err) => r matches Err(e) && e@ == err,
        },
{
    let cs = chars_of(input);
    match parse_chars(&cs) {
        Ok(q) => Ok(q),
        Err(p) => Err(Error::ParseError { pos: byte_offset(input, p) }),
    }
}

} // verus!
