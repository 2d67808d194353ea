//! The statement classifier: thin dispatch by leading keyword to the read
//! and write compilers. A statement that opens with INSERT, UPDATE or
//! DELETE goes to the write compiler; everything else is treated as a read
//! query, whose own scan rejects what it cannot serve.

use vstd::prelude::*;

use crate::chars::{match_at, trim_seq, upper_seq};
use crate::error::{Error, ErrorView};
use crate::query::{read_query_sp, PhrasesView, QueryPhrases};
use crate::stmt::{delete_kw, insert_kw, parse_write_sp, update_kw, ExecPhrase, ExecPhraseView};
use crate::value::DataType;

verus! {

/// One compiled statement, ready for dispatch: a rendered read query or a
/// canonical write statement.
#[derive(Debug, PartialEq)]
pub enum CompiledStatement {
    Read(QueryPhrases),
    Write(ExecPhrase),
}

pub enum CompiledStatementView {
    Read(PhrasesView),
    Write(ExecPhraseView),
}

impl View for CompiledStatement {
    type V = CompiledStatementView;

    open spec fn view(&self) -> CompiledStatementView {
        match self {
            CompiledStatement::Read(q) => CompiledStatementView::Read(q@),
            CompiledStatement::Write(w) => CompiledStatementView::Write(w@),
        }
    }
}

/// Whether the trimmed, upper-cased text opens with a modifying keyword.
pub open spec fn is_write_stmt(q: Seq<char>) -> bool {
    let u = upper_seq(trim_seq(q));
    match_at(u, insert_kw(), 0) || match_at(u, update_kw(), 0) || match_at(u, delete_kw(), 0)
}

pub open spec fn compile_sp(q: Seq<char>, params: Seq<DataType>) -> Result<
    CompiledStatementView,
    ErrorView,
> {
    if is_write_stmt(q) {
        match parse_write_sp(q, params) {
            Ok(w) => Ok(CompiledStatementView::Write(w)),
            Err(e) => Err(e),
        }
    } else {
        match read_query_sp(q, params) {
            Ok(r) => Ok(CompiledStatementView::Read(r)),
            Err(e) => Err(e),
        }
    }
}

/// Compile one statement with its positional parameters, dispatching by its
/// leading keyword.
pub fn compile(text: &str, params: &[DataType]) -> (r: Result<CompiledStatement, Error>)
    ensures
        match r {
            Ok(c) => compile_sp(text@, params@) == Ok::<CompiledStatementView, ErrorView>(c@),
            Err(e) => compile_sp(text@, params@) == Err::<CompiledStatementView, ErrorView>(e@),
        },
{
    let qv = crate::text::chars_of(text);
    let tq = crate::chars::trim(&qv);
    let u = crate::chars::to_upper(&tq);
    let insert_v = vec!['I', 'N', 'S', 'E', 'R', 'T'];
    let update_v = vec!['U', 'P', 'D', 'A', 'T', 'E'];
    let delete_v = vec!['D', 'E', 'L', 'E', 'T', 'E'];
    assert(insert_v@ =~= insert_kw());
    assert(update_v@ =~= update_kw());
    assert(delete_v@ =~= delete_kw());
    let is_write = crate::chars::starts_with(&u, &insert_v) || crate::chars::starts_with(
        &u,
        &update_v,
    ) || crate::chars::starts_with(&u, &delete_v);
    if is_write {
        match ExecPhrase::parse(text, params) {
            Ok(w) => Ok(CompiledStatement::Write(w)),
            Err(e) => Err(e),
        }
    } else {
        match QueryPhrases::query(text, params) {
            Ok(q) => Ok(CompiledStatement::Read(q)),
            Err(e) => Err(e),
        }
    }
}

} // verus!
