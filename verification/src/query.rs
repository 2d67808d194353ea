//! The read-query compiler: a SELECT-shaped statement, with positional `$N`
//! parameters substituted as literals, is parsed into a structured query
//! (select list, filter text, row limit) and rendered to an OData query
//! string.

use vstd::prelude::*;

use crate::chars::{
    self, has_sub, join_with, replace_all, tokens, trim_end_char, upper_seq, views,
};
use crate::error::{Error, ErrorView};
use crate::num_text::{bool_text, i64_dec, parse_u32_sp, u64_dec};
use crate::text::{chars_of, string_of};
use crate::value::DataType;

verus! {

/// The structured form of one read query.
#[derive(Debug, Clone, PartialEq)]
pub struct QueryPhrases {
    /// The select list, or `"*"`; absent when the statement names none.
    pub select: Option<String>,
    /// The predicate text, in the dialect's operators.
    pub filter: Option<String>,
    /// The row limit of a TOP clause.
    pub top: Option<u32>,
}

/// The mathematical view of a structured query.
pub struct PhrasesView {
    pub select: Option<Seq<char>>,
    pub filter: Option<Seq<char>>,
    pub top: Option<u32>,
}

pub open spec fn opt_view(o: Option<String>) -> Option<Seq<char>> {
    match o {
        Option::Some(s) => Option::Some(s@),
        Option::None => Option::None,
    }
}

impl View for QueryPhrases {
    type V = PhrasesView;

    open spec fn view(&self) -> PhrasesView {
        PhrasesView { select: opt_view(self.select), filter: opt_view(self.filter), top: self.top }
    }
}

pub open spec fn null_lit() -> Seq<char> {
    seq!['N', 'U', 'L', 'L']
}

pub open spec fn quote_mark() -> Seq<char> {
    seq!['\'']
}

pub open spec fn doubled_quote() -> Seq<char> {
    seq!['\'', '\'']
}

/// The literal text a parameter is substituted as: numerics bare, strings
/// quoted with embedded quotes doubled, date/time/timestamp text quoted,
/// booleans as `true`/`false`, an absent value as `NULL`. Binary parameters
/// have no literal syntax.
pub open spec fn lit_of(p: DataType) -> Option<Seq<char>> {
    match p {
        DataType::Int32(o) => Some(
            match o {
                Option::Some(v) => i64_dec(v as int),
                Option::None => null_lit(),
            },
        ),
        DataType::Int64(o) => Some(
            match o {
                Option::Some(v) => i64_dec(v as int),
                Option::None => null_lit(),
            },
        ),
        DataType::Uint32(o) => Some(
            match o {
                Option::Some(v) => u64_dec(v as int),
                Option::None => null_lit(),
            },
        ),
        DataType::Uint64(o) => Some(
            match o {
                Option::Some(v) => u64_dec(v as int),
                Option::None => null_lit(),
            },
        ),
        DataType::Float(o) => Some(
            match o {
                Option::Some(t) => t@,
                Option::None => null_lit(),
            },
        ),
        DataType::Double(o) => Some(
            match o {
                Option::Some(t) => t@,
                Option::None => null_lit(),
            },
        ),
        DataType::Str(o) => Some(
            match o {
                Option::Some(s) => quote_mark() + replace_all(s@, quote_mark(), doubled_quote())
                    + quote_mark(),
                Option::None => null_lit(),
            },
        ),
        DataType::Boolean(o) => Some(
            match o {
                Option::Some(b) => bool_text(b),
                Option::None => null_lit(),
            },
        ),
        DataType::Date(o) => Some(
            match o {
                Option::Some(s) => quote_mark() + s@ + quote_mark(),
                Option::None => null_lit(),
            },
        ),
        DataType::Time(o) => Some(
            match o {
                Option::Some(s) => quote_mark() + s@ + quote_mark(),
                Option::None => null_lit(),
            },
        ),
        DataType::Timestamp(o) => Some(
            match o {
                Option::Some(s) => quote_mark() + s@ + quote_mark(),
                Option::None => null_lit(),
            },
        ),
        DataType::Binary(_) => None,
    }
}

/// The text of the placeholder for the 1-based parameter `n`.
pub open spec fn placeholder_text(n: int) -> Seq<char> {
    seq!['$'] + u64_dec(n)
}

/// The query text after substituting parameters `i..` in order, each
/// replacing every occurrence of its placeholder.
pub open spec fn substituted_from(q: Seq<char>, params: Seq<DataType>, i: int) -> Result<
    Seq<char>,
    ErrorView,
>
    decreases params.len() - i when 0 <= i <= params.len()
{
    if i >= params.len() {
        Ok(q)
    } else {
        match lit_of(params[i]) {
            Option::Some(l) => substituted_from(
                replace_all(q, placeholder_text(i + 1), l),
                params,
                i + 1,
            ),
            Option::None => Err(ErrorView::UnsupportedParameterType(i + 1)),
        }
    }
}

pub open spec fn substituted(q: Seq<char>, params: Seq<DataType>) -> Result<Seq<char>, ErrorView> {
    substituted_from(q, params, 0)
}

fn null_chars() -> (r: Vec<char>)
    ensures
        r@ == null_lit(),
{
    let r = vec!['N', 'U', 'L', 'L'];
    assert(r@ =~= null_lit());
    r
}

/// The literal text of one parameter, or none for binary.
fn lit_exec(p: &DataType) -> (r: Option<Vec<char>>)
    ensures
        match r {
            Option::Some(v) => lit_of(*p) == Some(v@),
            Option::None => lit_of(*p) is None,
        },
{
    match p {
        DataType::Int32(o) => Some(
            match o {
                Option::Some(v) => crate::num_text::i32_to_chars(*v),
                Option::None => null_chars(),
            },
        ),
        DataType::Int64(o) => Some(
            match o {
                Option::Some(v) => crate::num_text::i64_to_chars(*v),
                Option::None => null_chars(),
            },
        ),
        DataType::Uint32(o) => Some(
            match o {
                Option::Some(v) => crate::num_text::u32_to_chars(*v),
                Option::None => null_chars(),
            },
        ),
        DataType::Uint64(o) => Some(
            match o {
                Option::Some(v) => crate::num_text::u64_to_chars(*v),
                Option::None => null_chars(),
            },
        ),
        DataType::Float(o) => Some(
            match o {
                Option::Some(t) => chars_of(t.as_str()),
                Option::None => null_chars(),
            },
        ),
        DataType::Double(o) => Some(
            match o {
                Option::Some(t) => chars_of(t.as_str()),
                Option::None => null_chars(),
            },
        ),
        DataType::Str(o) => Some(
            match o {
                Option::Some(s) => {
                    let sv = chars_of(s.as_str());
                    let q = vec!['\''];
                    let qq = vec!['\'', '\''];
                    assert(q@ =~= quote_mark());
                    assert(qq@ =~= doubled_quote());
                    let escaped = chars::replace(&sv, &q, &qq);
                    let mut out = vec!['\''];
                    chars::push_all(&mut out, &escaped);
                    out.push('\'');
                    proof {
                        assert(out@ =~= quote_mark() + replace_all(
                            s@,
                            quote_mark(),
                            doubled_quote(),
                        ) + quote_mark());
                    }
                    out
                },
                Option::None => null_chars(),
            },
        ),
        DataType::Boolean(o) => Some(
            match o {
                Option::Some(b) => crate::num_text::bool_to_chars(*b),
                Option::None => null_chars(),
            },
        ),
        DataType::Date(o) => Some(
            match o {
                Option::Some(s) => quoted_raw(s),
                Option::None => null_chars(),
            },
        ),
        DataType::Time(o) => Some(
            match o {
                Option::Some(s) => quoted_raw(s),
                Option::None => null_chars(),
            },
        ),
        DataType::Timestamp(o) => Some(
            match o {
                Option::Some(s) => quoted_raw(s),
                Option::None => null_chars(),
            },
        ),
        DataType::Binary(_) => None,
    }
}

fn quoted_raw(s: &String) -> (r: Vec<char>)
    ensures
        r@ == quote_mark() + s@ + quote_mark(),
{
    let sv = chars_of(s.as_str());
    let mut out = vec!['\''];
    chars::push_all(&mut out, &sv);
    out.push('\'');
    assert(out@ =~= quote_mark() + s@ + quote_mark());
    out
}

/// Substitute every parameter into the query text.
fn substitute_exec(q: &Vec<char>, params: &[DataType]) -> (r: Result<Vec<char>, Error>)
    ensures
        match r {
            Ok(v) => substituted(q@, params@) == Ok::<Seq<char>, ErrorView>(v@),
            Err(e) => substituted(q@, params@) == Err::<Seq<char>, ErrorView>(e@),
        },
{
    let mut cur: Vec<char> = chars::subrange_vec(q, 0, q.len());
    assert(cur@ =~= q@);
    let mut i: usize = 0;
    while i < params.len()
        invariant
            0 <= i <= params@.len(),
            substituted(q@, params@) == substituted_from(cur@, params@, i as int),
        decreases params.len() - i,
    {
        match lit_exec(&params[i]) {
            Option::Some(l) => {
                let mut ph: Vec<char> = vec!['$'];
                let digits = crate::num_text::u64_to_chars((i as u64) + 1);
                chars::push_all(&mut ph, &digits);
                assert(ph@ =~= placeholder_text(i + 1));
                cur = chars::replace(&cur, &ph, &l);
                i += 1;
            },
            Option::None => {
                return Err(Error::UnsupportedParameterType(i + 1));
            },
        }
    }
    Ok(cur)
}

pub open spec fn select_kw() -> Seq<char> {
    seq!['S', 'E', 'L', 'E', 'C', 'T']
}

pub open spec fn top_kw() -> Seq<char> {
    seq!['T', 'O', 'P']
}

pub open spec fn from_kw() -> Seq<char> {
    seq!['F', 'R', 'O', 'M']
}

pub open spec fn where_kw() -> Seq<char> {
    seq!['W', 'H', 'E', 'R', 'E']
}

pub open spec fn order_kw() -> Seq<char> {
    seq!['O', 'R', 'D', 'E', 'R']
}

pub open spec fn join_kw() -> Seq<char> {
    seq!['J', 'O', 'I', 'N']
}

pub open spec fn order_by_kw() -> Seq<char> {
    seq!['O', 'R', 'D', 'E', 'R', ' ', 'B', 'Y']
}

/// First token at or after `i` that upper-cases to FROM (or the end).
pub open spec fn select_end(ts: Seq<Seq<char>>, i: int) -> int
    decreases ts.len() - i when 0 <= i <= ts.len()
{
    if i >= ts.len() {
        i
    } else if upper_seq(ts[i]) == from_kw() {
        i
    } else {
        select_end(ts, i + 1)
    }
}

pub proof fn lemma_select_end(ts: Seq<Seq<char>>, i: int)
    requires
        0 <= i <= ts.len(),
    ensures
        i <= select_end(ts, i) <= ts.len(),
    decreases ts.len() - i,
{
    if i < ts.len() && upper_seq(ts[i]) != from_kw() {
        lemma_select_end(ts, i + 1);
    }
}

/// First token at or after `i` that upper-cases to ORDER or JOIN (or the end).
pub open spec fn where_end(ts: Seq<Seq<char>>, i: int) -> int
    decreases ts.len() - i when 0 <= i <= ts.len()
{
    if i >= ts.len() {
        i
    } else if upper_seq(ts[i]) == order_kw() || upper_seq(ts[i]) == join_kw() {
        i
    } else {
        where_end(ts, i + 1)
    }
}

pub proof fn lemma_where_end(ts: Seq<Seq<char>>, i: int)
    requires
        0 <= i <= ts.len(),
    ensures
        i <= where_end(ts, i) <= ts.len(),
    decreases ts.len() - i,
{
    if i < ts.len() && !(upper_seq(ts[i]) == order_kw() || upper_seq(ts[i]) == join_kw()) {
        lemma_where_end(ts, i + 1);
    }
}

/// The position after a FROM keyword: the keyword and, where present, the
/// table name are consumed.
pub open spec fn from_next(ts: Seq<Seq<char>>, i: int) -> int {
    if i + 1 < ts.len() {
        i + 2
    } else {
        i + 1
    }
}

/// The select list collected from `p2` up to the next FROM: the raw tokens
/// joined with single spaces, trailing commas trimmed; an empty collection
/// leaves the accumulator unchanged.
pub open spec fn select_collect(ts: Seq<Seq<char>>, p2: int, acc: PhrasesView) -> (int,
    PhrasesView,
) {
    let j = select_end(ts, p2);
    let items = ts.subrange(p2, j);
    if items.len() > 0 {
        (
            j,
            PhrasesView {
                select: Some(trim_end_char(join_with(items, seq![' ']), ',')),
                filter: acc.filter,
                top: acc.top,
            },
        )
    } else {
        (j, acc)
    }
}

/// One SELECT step at token `i`: an optional TOP clause, which must be
/// followed by an unsigned integer (MalformedQuery if that count is missing
/// or non-numeric), then the select list up to FROM.
pub open spec fn select_step(ts: Seq<Seq<char>>, i: int, acc: PhrasesView) -> Result<
    (int, PhrasesView),
    ErrorView,
> {
    let p = i + 1;
    if p < ts.len() && upper_seq(ts[p]) == top_kw() {
        if p + 1 < ts.len() {
            match parse_u32_sp(ts[p + 1]) {
                Option::Some(v) => Ok(
                    select_collect(
                        ts,
                        p + 2,
                        PhrasesView { select: acc.select, filter: acc.filter, top: Some(v) },
                    ),
                ),
                Option::None => Err(ErrorView::MalformedQuery(ts[p + 1])),
            }
        } else {
            Err(ErrorView::MalformedQuery(ts[p]))
        }
    } else {
        Ok(select_collect(ts, p, acc))
    }
}

/// One WHERE step at token `i`: the filter text collected up to ORDER, JOIN
/// or the end, joined with single spaces.
pub open spec fn where_step(ts: Seq<Seq<char>>, i: int, acc: PhrasesView) -> (int, PhrasesView) {
    let p = i + 1;
    let j = where_end(ts, p);
    let items = ts.subrange(p, j);
    if items.len() > 0 {
        (
            j,
            PhrasesView {
                select: acc.select,
                filter: Some(join_with(items, seq![' '])),
                top: acc.top,
            },
        )
    } else {
        (j, acc)
    }
}

/// The token scan: SELECT, FROM and WHERE are recognised case-insensitively
/// in any order; other tokens are skipped.
pub open spec fn scan(ts: Seq<Seq<char>>, i: int, acc: PhrasesView) -> Result<
    PhrasesView,
    ErrorView,
>
    decreases ts.len() - i when 0 <= i <= ts.len() via scan_dec
{
    if i >= ts.len() {
        Ok(acc)
    } else {
        let u = upper_seq(ts[i]);
        if u == select_kw() {
            match select_step(ts, i, acc) {
                Ok(sa) => scan(ts, sa.0, sa.1),
                Err(e) => Err(e),
            }
        } else if u == from_kw() {
            scan(ts, from_next(ts, i), acc)
        } else if u == where_kw() {
            let ja = where_step(ts, i, acc);
            scan(ts, ja.0, ja.1)
        } else {
            scan(ts, i + 1, acc)
        }
    }
}

#[via_fn]
proof fn scan_dec(ts: Seq<Seq<char>>, i: int, acc: PhrasesView) {
    if 0 <= i < ts.len() {
        lemma_select_end(ts, i + 1);
        if i + 2 <= ts.len() {
            lemma_select_end(ts, i + 2);
        }
        if i + 3 <= ts.len() {
            lemma_select_end(ts, i + 3);
        }
        lemma_where_end(ts, i + 1);
    }
}

pub open spec fn empty_phrases() -> PhrasesView {
    PhrasesView { select: None, filter: None, top: None }
}

/// What compiling a read statement yields: UnsupportedClause on any JOIN or
/// ORDER BY anywhere in the text; otherwise parameters are substituted and
/// the token scan runs.
pub open spec fn read_query_sp(q: Seq<char>, params: Seq<DataType>) -> Result<
    PhrasesView,
    ErrorView,
> {
    if has_sub(upper_seq(q), join_kw()) {
        Err(ErrorView::UnsupportedClause(join_kw()))
    } else if has_sub(upper_seq(q), order_by_kw()) {
        Err(ErrorView::UnsupportedClause(order_by_kw()))
    } else {
        match substituted(q, params) {
            Ok(pq) => scan(tokens(pq), 0, empty_phrases()),
            Err(e) => Err(e),
        }
    }
}

fn select_end_exec(ts: &Vec<Vec<char>>, p: usize) -> (j: usize)
    requires
        p <= ts@.len(),
    ensures
        j as int == select_end(views(ts@), p as int),
        p <= j <= ts@.len(),
{
    let ghost vs = views(ts@);
    let mut j = p;
    loop
        invariant
            p <= j <= ts@.len(),
            vs == views(ts@),
            vs.len() == ts@.len(),
            select_end(vs, p as int) == select_end(vs, j as int),
        decreases ts@.len() - j,
    {
        if j == ts.len() {
            return j;
        }
        let u = chars::to_upper(&ts[j]);
        proof {
            assert(vs[j as int] == ts@[j as int]@);
        }
        let kw = vec!['F', 'R', 'O', 'M'];
        assert(kw@ =~= from_kw());
        if chars::seq_eq(&u, &kw) {
            return j;
        }
        j += 1;
    }
}

fn where_end_exec(ts: &Vec<Vec<char>>, p: usize) -> (j: usize)
    requires
        p <= ts@.len(),
    ensures
        j as int == where_end(views(ts@), p as int),
        p <= j <= ts@.len(),
{
    let ghost vs = views(ts@);
    let mut j = p;
    loop
        invariant
            p <= j <= ts@.len(),
            vs == views(ts@),
            vs.len() == ts@.len(),
            where_end(vs, p as int) == where_end(vs, j as int),
        decreases ts@.len() - j,
    {
        if j == ts.len() {
            return j;
        }
        let u = chars::to_upper(&ts[j]);
        proof {
            assert(vs[j as int] == ts@[j as int]@);
        }
        let kw1 = vec!['O', 'R', 'D', 'E', 'R'];
        let kw2 = vec!['J', 'O', 'I', 'N'];
        assert(kw1@ =~= order_kw());
        assert(kw2@ =~= join_kw());
        if chars::seq_eq(&u, &kw1) || chars::seq_eq(&u, &kw2) {
            return j;
        }
        j += 1;
    }
}

fn join_range(ts: &Vec<Vec<char>>, from: usize, to: usize, sep: &Vec<char>) -> (r: Vec<char>)
    requires
        from <= to <= ts@.len(),
    ensures
        r@ == join_with(views(ts@).subrange(from as int, to as int), sep@),
{
    let ghost vs = views(ts@);
    let mut r: Vec<char> = Vec::new();
    let mut k = from;
    assert(vs.subrange(from as int, from as int) =~= Seq::<Seq<char>>::empty());
    while k < to
        invariant
            from <= k <= to <= ts@.len(),
            vs == views(ts@),
            vs.len() == ts@.len(),
            r@ == join_with(vs.subrange(from as int, k as int), sep@),
        decreases to - k,
    {
        if k > from {
            chars::push_all(&mut r, sep);
        }
        chars::push_all(&mut r, &ts[k]);
        proof {
            let pre = vs.subrange(from as int, k as int);
            assert(vs[k as int] == ts@[k as int]@);
            assert(pre.push(vs[k as int]) =~= vs.subrange(from as int, k + 1));
            chars::lemma_join_snoc(pre, vs[k as int], sep@);
        }
        k += 1;
    }
    r
}

pub open spec fn accv(s: Option<Vec<char>>, f: Option<Vec<char>>, t: Option<u32>) -> PhrasesView {
    PhrasesView {
        select: match s {
            Option::Some(v) => Some(v@),
            Option::None => None,
        },
        filter: match f {
            Option::Some(v) => Some(v@),
            Option::None => None,
        },
        top: t,
    }
}

impl QueryPhrases {
    /// Compile one read statement with its positional parameters.
    ///
    /// Fails UnsupportedClause if the upper-cased text contains JOIN or
    /// ORDER BY anywhere; UnsupportedParameterType on a binary parameter;
    /// MalformedQuery when TOP is not followed by an unsigned integer.
    pub fn query(query: &str, params: &[DataType]) -> (r: Result<QueryPhrases, Error>)
        ensures
            match r {
                Ok(p) => read_query_sp(query@, params@) == Ok::<PhrasesView, ErrorView>(p@),
                Err(e) => read_query_sp(query@, params@) == Err::<PhrasesView, ErrorView>(e@),
            },
    {
        let qv = chars_of(query);
        let upper = chars::to_upper(&qv);
        let join_v = vec!['J', 'O', 'I', 'N'];
        assert(join_v@ =~= join_kw());
        if chars::contains_sub(&upper, &join_v) {
            return Err(Error::UnsupportedClause(string_of(&join_v)));
        }
        let order_by_v = vec!['O', 'R', 'D', 'E', 'R', ' ', 'B', 'Y'];
        assert(order_by_v@ =~= order_by_kw());
        if chars::contains_sub(&upper, &order_by_v) {
            return Err(Error::UnsupportedClause(string_of(&order_by_v)));
        }
        let sub = match substitute_exec(&qv, params) {
            Ok(v) => v,
            Err(e) => {
                return Err(e);
            },
        };
        let ts = chars::tokenize(&sub);
        let ghost vs = views(ts@);
        assert(vs == tokens(sub@));
        assert(read_query_sp(query@, params@) == scan(vs, 0, empty_phrases()));

        let mut select_cur: Option<Vec<char>> = None;
        let mut filter_cur: Option<Vec<char>> = None;
        let mut top_cur: Option<u32> = None;
        let mut i: usize = 0;
        while i < ts.len()
            invariant
                0 <= i <= ts@.len(),
                vs == views(ts@),
                vs.len() == ts@.len(),
                read_query_sp(query@, params@) == scan(vs, 0, empty_phrases()),
                scan(vs, 0, empty_phrases()) == scan(
                    vs,
                    i as int,
                    accv(select_cur, filter_cur, top_cur),
                ),
            decreases ts@.len() - i,
        {
            let ghost acc0 = accv(select_cur, filter_cur, top_cur);
            let u = chars::to_upper(&ts[i]);
            proof {
                assert(vs[i as int] == ts@[i as int]@);
            }
            let select_v = vec!['S', 'E', 'L', 'E', 'C', 'T'];
            let from_v = vec!['F', 'R', 'O', 'M'];
            let where_v = vec!['W', 'H', 'E', 'R', 'E'];
            let top_v = vec!['T', 'O', 'P'];
            assert(select_v@ =~= select_kw());
            assert(from_v@ =~= from_kw());
            assert(where_v@ =~= where_kw());
            assert(top_v@ =~= top_kw());
            if chars::seq_eq(&u, &select_v) {
                let mut p = i + 1;
                let mut is_top = false;
                if p < ts.len() {
                    let tu = chars::to_upper(&ts[p]);
                    proof {
                        assert(vs[p as int] == ts@[p as int]@);
                    }
                    is_top = chars::seq_eq(&tu, &top_v);
                }
                if is_top {
                    p += 1;
                    if p < ts.len() {
                        proof {
                            assert(vs[p as int] == ts@[p as int]@);
                        }
                        match crate::num_text::parse_u32_chars(&ts[p]) {
                            Option::Some(v) => {
                                top_cur = Some(v);
                                p += 1;
                            },
                            Option::None => {
                                proof {
                                    assert(select_step(vs, i as int, acc0) == Err::<
                                        (int, PhrasesView),
                                        ErrorView,
                                    >(ErrorView::MalformedQuery(vs[p as int])));
                                    assert(scan(vs, i as int, acc0) == Err::<
                                        PhrasesView,
                                        ErrorView,
                                    >(ErrorView::MalformedQuery(vs[p as int])));
                                }
                                return Err(Error::MalformedQuery(string_of(&ts[p])));
                            },
                        }
                    } else {
                        proof {
                            assert(select_step(vs, i as int, acc0) == Err::<
                                (int, PhrasesView),
                                ErrorView,
                            >(ErrorView::MalformedQuery(vs[i + 1])));
                            assert(scan(vs, i as int, acc0) == Err::<PhrasesView, ErrorView>(
                                ErrorView::MalformedQuery(vs[i + 1]),
                            ));
                        }
                        return Err(Error::MalformedQuery(string_of(&ts[i + 1])));
                    }
                }
                let ghost acc_t = accv(select_cur, filter_cur, top_cur);
                proof {
                    assert(select_step(vs, i as int, acc0) == Ok::<(int, PhrasesView), ErrorView>(
                        select_collect(vs, p as int, acc_t),
                    ));
                }
                let j = select_end_exec(&ts, p);
                proof {
                    assert(j as int == select_collect(vs, p as int, acc_t).0);
                }
                if j > p {
                    let sep = vec![' '];
                    assert(sep@ =~= seq![' ']);
                    let joined = join_range(&ts, p, j, &sep);
                    let trimmed = chars::trim_end_matching(&joined, ',');
                    select_cur = Some(trimmed);
                    proof {
                        let items = vs.subrange(p as int, j as int);
                        assert(items.len() > 0);
                        assert(trimmed@ == trim_end_char(join_with(items, seq![' ']), ','));
                        assert(accv(select_cur, filter_cur, top_cur) == select_collect(
                            vs,
                            p as int,
                            acc_t,
                        ).1);
                    }
                } else {
                    proof {
                        assert(vs.subrange(p as int, j as int).len() == 0);
                        assert(accv(select_cur, filter_cur, top_cur) == select_collect(
                            vs,
                            p as int,
                            acc_t,
                        ).1);
                    }
                }
                i = j;
            } else if chars::seq_eq(&u, &from_v) {
                if i + 1 < ts.len() {
                    i = i + 2;
                } else {
                    i = i + 1;
                }
            } else if chars::seq_eq(&u, &where_v) {
                let p = i + 1;
                let j = where_end_exec(&ts, p);
                if j > p {
                    let sep = vec![' '];
                    assert(sep@ =~= seq![' ']);
                    filter_cur = Some(join_range(&ts, p, j, &sep));
                    assert(vs.subrange(p as int, j as int).len() > 0);
                } else {
                    assert(vs.subrange(p as int, j as int).len() == 0);
                }
                proof {
                    assert(where_step(vs, i as int, acc0) == (
                        j as int,
                        accv(select_cur, filter_cur, top_cur),
                    ));
                }
                i = j;
            } else {
                i += 1;
            }
        }
        let select_s = match select_cur {
            Option::Some(v) => Some(string_of(&v)),
            Option::None => None,
        };
        let filter_s = match filter_cur {
            Option::Some(v) => Some(string_of(&v)),
            Option::None => None,
        };
        Ok(QueryPhrases { select: select_s, filter: filter_s, top: top_cur })
    }
}

/// What `urlencoding::encode` returns for the given characters.
pub uninterp spec fn urlencoded_of(s: Seq<char>) -> Seq<char>;

/// Relies on `urlencoding::encode`: percent-encodes every byte of the UTF-8
/// text except ASCII alphanumerics and `-`, `_`, `.`, `~`. The result depends
/// on the input characters alone.
#[verifier::external_body]
fn urlencode(s: &str) -> (r: String)
    ensures
        r@ == urlencoded_of(s@),
{
    urlencoding::encode(s).into_owned()
}

/// Whole-token operator substitution from the dialect to OData, applied in a
/// fixed order, each step replacing every space-delimited occurrence.
pub open spec fn op_subst(f: Seq<char>) -> Seq<char> {
    let f1 = replace_all(f, seq![' ', '=', ' '], seq![' ', 'e', 'q', ' ']);
    let f2 = replace_all(f1, seq![' ', '!', '=', ' '], seq![' ', 'n', 'e', ' ']);
    let f3 = replace_all(f2, seq![' ', '<', '>', ' '], seq![' ', 'n', 'e', ' ']);
    let f4 = replace_all(f3, seq![' ', '>', ' '], seq![' ', 'g', 't', ' ']);
    let f5 = replace_all(f4, seq![' ', '>', '=', ' '], seq![' ', 'g', 'e', ' ']);
    let f6 = replace_all(f5, seq![' ', '<', ' '], seq![' ', 'l', 't', ' ']);
    let f7 = replace_all(f6, seq![' ', '<', '=', ' '], seq![' ', 'l', 'e', ' ']);
    let f8 = replace_all(f7, seq![' ', 'A', 'N', 'D', ' '], seq![' ', 'a', 'n', 'd', ' ']);
    let f9 = replace_all(f8, seq![' ', 'O', 'R', ' '], seq![' ', 'o', 'r', ' ']);
    replace_all(f9, seq![' ', 'N', 'O', 'T', ' '], seq![' ', 'n', 'o', 't', ' '])
}

fn op_subst_exec(f: &Vec<char>) -> (r: Vec<char>)
    ensures
        r@ == op_subst(f@),
{
    let p1 = vec![' ', '=', ' '];
    let r1 = vec![' ', 'e', 'q', ' '];
    let p2 = vec![' ', '!', '=', ' '];
    let r2 = vec![' ', 'n', 'e', ' '];
    let p3 = vec![' ', '<', '>', ' '];
    let p4 = vec![' ', '>', ' '];
    let r4 = vec![' ', 'g', 't', ' '];
    let p5 = vec![' ', '>', '=', ' '];
    let r5 = vec![' ', 'g', 'e', ' '];
    let p6 = vec![' ', '<', ' '];
    let r6 = vec![' ', 'l', 't', ' '];
    let p7 = vec![' ', '<', '=', ' '];
    let r7 = vec![' ', 'l', 'e', ' '];
    let p8 = vec![' ', 'A', 'N', 'D', ' '];
    let r8 = vec![' ', 'a', 'n', 'd', ' '];
    let p9 = vec![' ', 'O', 'R', ' '];
    let r9 = vec![' ', 'o', 'r', ' '];
    let p10 = vec![' ', 'N', 'O', 'T', ' '];
    let r10 = vec![' ', 'n', 'o', 't', ' '];
    let g1 = chars::replace(f, &p1, &r1);
    let g2 = chars::replace(&g1, &p2, &r2);
    let g3 = chars::replace(&g2, &p3, &r2);
    let g4 = chars::replace(&g3, &p4, &r4);
    let g5 = chars::replace(&g4, &p5, &r5);
    let g6 = chars::replace(&g5, &p6, &r6);
    let g7 = chars::replace(&g6, &p7, &r7);
    let g8 = chars::replace(&g7, &p8, &r8);
    let g9 = chars::replace(&g8, &p9, &r9);
    let g10 = chars::replace(&g9, &p10, &r10);
    proof {
        assert(p1@ =~= seq![' ', '=', ' ']);
        assert(r1@ =~= seq![' ', 'e', 'q', ' ']);
        assert(p2@ =~= seq![' ', '!', '=', ' ']);
        assert(r2@ =~= seq![' ', 'n', 'e', ' ']);
        assert(p3@ =~= seq![' ', '<', '>', ' ']);
        assert(p4@ =~= seq![' ', '>', ' ']);
        assert(r4@ =~= seq![' ', 'g', 't', ' ']);
        assert(p5@ =~= seq![' ', '>', '=', ' ']);
        assert(r5@ =~= seq![' ', 'g', 'e', ' ']);
        assert(p6@ =~= seq![' ', '<', ' ']);
        assert(r6@ =~= seq![' ', 'l', 't', ' ']);
        assert(p7@ =~= seq![' ', '<', '=', ' ']);
        assert(r7@ =~= seq![' ', 'l', 'e', ' ']);
        assert(p8@ =~= seq![' ', 'A', 'N', 'D', ' ']);
        assert(r8@ =~= seq![' ', 'a', 'n', 'd', ' ']);
        assert(p9@ =~= seq![' ', 'O', 'R', ' ']);
        assert(r9@ =~= seq![' ', 'o', 'r', ' ']);
        assert(p10@ =~= seq![' ', 'N', 'O', 'T', ' ']);
        assert(r10@ =~= seq![' ', 'n', 'o', 't', ' ']);
    }
    g10
}

pub open spec fn select_prefix() -> Seq<char> {
    seq!['$', 's', 'e', 'l', 'e', 'c', 't', '=']
}

pub open spec fn filter_prefix() -> Seq<char> {
    seq!['$', 'f', 'i', 'l', 't', 'e', 'r', '=']
}

pub open spec fn top_prefix() -> Seq<char> {
    seq!['$', 't', 'o', 'p', '=']
}

pub open spec fn star() -> Seq<char> {
    seq!['*']
}

/// The rendered clauses, in fixed order: `$select` (omitted for `*`),
/// `$filter` after operator substitution, `$top`. Select list and filter are
/// percent-encoded.
pub open spec fn odata_clauses(p: PhrasesView) -> Seq<Seq<char>> {
    let cs = Seq::<Seq<char>>::empty();
    let cs1 = match p.select {
        Option::Some(s) => if s != star() {
            cs.push(select_prefix() + urlencoded_of(s))
        } else {
            cs
        },
        Option::None => cs,
    };
    let cs2 = match p.filter {
        Option::Some(f) => cs1.push(filter_prefix() + urlencoded_of(op_subst(f))),
        Option::None => cs1,
    };
    match p.top {
        Option::Some(t) => cs2.push(top_prefix() + u64_dec(t as int)),
        Option::None => cs2,
    }
}

/// The whole OData query string: the clauses joined with `&`.
pub open spec fn odata_sp(p: PhrasesView) -> Seq<char> {
    join_with(odata_clauses(p), seq!['&'])
}

impl QueryPhrases {
    /// Render the structured query as an OData query string.
    pub fn odata(&self) -> (r: String)
        ensures
            r@ == odata_sp(self@),
    {
        let mut clauses: Vec<Vec<char>> = Vec::new();
        assert(views(clauses@) =~= Seq::<Seq<char>>::empty());
        match &self.select {
            Option::Some(s) => {
                let sv = chars_of(s.as_str());
                let star_v = vec!['*'];
                assert(star_v@ =~= star());
                if !chars::seq_eq(&sv, &star_v) {
                    let enc = urlencode(s.as_str());
                    let encv = chars_of(enc.as_str());
                    let mut clause = vec!['$', 's', 'e', 'l', 'e', 'c', 't', '='];
                    assert(clause@ =~= select_prefix());
                    chars::push_all(&mut clause, &encv);
                    let ghost c0 = clauses@;
                    clauses.push(clause);
                    assert(views(clauses@) =~= views(c0).push(
                        select_prefix() + urlencoded_of(s@),
                    ));
                }
            },
            Option::None => {},
        }
        let ghost cs1 = views(clauses@);
        match &self.filter {
            Option::Some(f) => {
                let fv = chars_of(f.as_str());
                let g = op_subst_exec(&fv);
                let gs = string_of(&g);
                let enc = urlencode(gs.as_str());
                let encv = chars_of(enc.as_str());
                let mut clause = vec!['$', 'f', 'i', 'l', 't', 'e', 'r', '='];
                assert(clause@ =~= filter_prefix());
                chars::push_all(&mut clause, &encv);
                let ghost c0 = clauses@;
                clauses.push(clause);
                assert(views(clauses@) =~= views(c0).push(
                    filter_prefix() + urlencoded_of(op_subst(f@)),
                ));
            },
            Option::None => {},
        }
        let ghost cs2 = views(clauses@);
        match self.top {
            Option::Some(t) => {
                let tv = crate::num_text::u32_to_chars(t);
                let mut clause = vec!['$', 't', 'o', 'p', '='];
                assert(clause@ =~= top_prefix());
                chars::push_all(&mut clause, &tv);
                let ghost c0 = clauses@;
                clauses.push(clause);
                assert(views(clauses@) =~= views(c0).push(top_prefix() + u64_dec(t as int)));
            },
            Option::None => {},
        }
        assert(views(clauses@) == odata_clauses(self@));
        let amp = vec!['&'];
        assert(amp@ =~= seq!['&']);
        let joined = chars::join_all(&clauses, &amp);
        string_of(&joined)
    }
}

} // verus!
