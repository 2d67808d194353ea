//! The write-statement compiler: INSERT, UPDATE and DELETE statements are
//! compiled to a canonical form carrying the action, the two-part key
//! addressing exactly one entity, and the entity's remaining fields.

use vstd::prelude::*;

use crate::chars::{
    self, find_char, find_from, has_sub, match_at, rfind_char, split_on, trim_each_sp, trim_seq,
    upper_seq, views,
};
use crate::error::{Error, ErrorView};
use crate::num_text::parse_usize_sp;
use crate::text::{chars_of, string_of};
use crate::value::{field_views, DataType, Field, FieldView};

verus! {

/// The kind of modifying statement.
#[derive(Debug, Clone, Copy, PartialEq, Eq, Structural)]
pub enum ExecAction {
    Insert,
    Update,
    Delete,
}

/// A compiled write statement: both keys are non-null strings, and `entity`
/// holds the remaining fields, the key fields excluded.
#[derive(Debug, Clone, PartialEq)]
pub struct ExecPhrase {
    pub action: ExecAction,
    pub partition: String,
    pub row: String,
    pub entity: Vec<Field>,
}

/// The mathematical view of a compiled write statement.
pub struct ExecPhraseView {
    pub action: ExecAction,
    pub partition: Seq<char>,
    pub row: Seq<char>,
    pub entity: Seq<FieldView>,
}

impl View for ExecPhrase {
    type V = ExecPhraseView;

    open spec fn view(&self) -> ExecPhraseView {
        ExecPhraseView {
            action: self.action,
            partition: self.partition@,
            row: self.row@,
            entity: field_views(self.entity@),
        }
    }
}

pub open spec fn insert_kw() -> Seq<char> {
    seq!['I', 'N', 'S', 'E', 'R', 'T']
}

pub open spec fn update_kw() -> Seq<char> {
    seq!['U', 'P', 'D', 'A', 'T', 'E']
}

pub open spec fn delete_kw() -> Seq<char> {
    seq!['D', 'E', 'L', 'E', 'T', 'E']
}

pub open spec fn values_kw() -> Seq<char> {
    seq!['V', 'A', 'L', 'U', 'E', 'S']
}

pub open spec fn set_text() -> Seq<char> {
    seq!['S', 'E', 'T']
}

pub open spec fn set_pat() -> Seq<char> {
    seq![' ', 'S', 'E', 'T', ' ']
}

pub open spec fn where_pat() -> Seq<char> {
    seq![' ', 'W', 'H', 'E', 'R', 'E', ' ']
}

pub open spec fn and_pat() -> Seq<char> {
    seq![' ', 'A', 'N', 'D', ' ']
}

pub open spec fn paren_marker() -> Seq<char> {
    seq!['(', ')']
}

pub open spec fn partition_key() -> Seq<char> {
    seq!['P', 'a', 'r', 't', 'i', 't', 'i', 'o', 'n', 'K', 'e', 'y']
}

pub open spec fn row_key() -> Seq<char> {
    seq!['R', 'o', 'w', 'K', 'e', 'y']
}

/// The 0-based parameter index of a `$N` placeholder token, if the token is
/// one: a `$`, then an unsigned integer at least 1.
pub open spec fn placeholder_index(s: Seq<char>) -> Option<int> {
    if s.len() > 0 && s[0] == '$' {
        match parse_usize_sp(s.drop_first()) {
            Option::Some(v) => if v >= 1 {
                Some(v as int - 1)
            } else {
                None
            },
            Option::None => None,
        }
    } else {
        None
    }
}

/// The column names of an INSERT head: the comma-separated, trimmed pieces
/// between the first `(` and the last `)`.
pub open spec fn columns_sp(part: Seq<char>) -> Result<Seq<Seq<char>>, ErrorView> {
    match find_char(part, '(', 0) {
        Option::None => Err(ErrorView::MalformedQuery(paren_marker())),
        Option::Some(op) => match rfind_char(part, ')', part.len() as int) {
            Option::None => Err(ErrorView::MalformedQuery(paren_marker())),
            Option::Some(cp) => if op + 1 > cp {
                Err(ErrorView::MalformedQuery(paren_marker()))
            } else {
                Ok(trim_each_sp(split_on(part.subrange(op + 1, cp), seq![','])))
            },
        },
    }
}

/// The parameter indices of a VALUES group: every entry must be a
/// placeholder.
pub open spec fn idxs_sp(entries: Seq<Seq<char>>, k: int, acc: Seq<int>) -> Result<
    Seq<int>,
    ErrorView,
>
    decreases entries.len() - k when 0 <= k <= entries.len()
{
    if k >= entries.len() {
        Ok(acc)
    } else {
        match placeholder_index(entries[k]) {
            Option::Some(ix) => idxs_sp(entries, k + 1, acc.push(ix)),
            Option::None => Err(ErrorView::MalformedQuery(entries[k])),
        }
    }
}

pub open spec fn placeholders_sp(part: Seq<char>) -> Result<Seq<int>, ErrorView> {
    match find_char(part, '(', 0) {
        Option::None => Err(ErrorView::MalformedQuery(paren_marker())),
        Option::Some(op) => match rfind_char(part, ')', part.len() as int) {
            Option::None => Err(ErrorView::MalformedQuery(paren_marker())),
            Option::Some(cp) => if op + 1 > cp {
                Err(ErrorView::MalformedQuery(paren_marker()))
            } else {
                idxs_sp(
                    trim_each_sp(split_on(part.subrange(op + 1, cp), seq![','])),
                    0,
                    Seq::empty(),
                )
            },
        },
    }
}

/// Each column paired with the parameter its placeholder resolves to;
/// a placeholder beyond the supplied parameters fails.
pub open spec fn fields_sp(
    cols: Seq<Seq<char>>,
    idxs: Seq<int>,
    params: Seq<DataType>,
    k: int,
    acc: Seq<FieldView>,
) -> Result<Seq<FieldView>, ErrorView>
    decreases cols.len() - k when 0 <= k <= cols.len() && cols.len() == idxs.len()
{
    if k >= cols.len() {
        Ok(acc)
    } else if idxs[k] >= params.len() {
        Err(ErrorView::ParameterOutOfRange(idxs[k] + 1))
    } else {
        fields_sp(
            cols,
            idxs,
            params,
            k + 1,
            acc.push(FieldView { name: cols[k], value: params[idxs[k]]@ }),
        )
    }
}

/// First field named `name`, if any.
pub open spec fn find_field(fields: Seq<FieldView>, name: Seq<char>) -> Option<FieldView>
    decreases fields.len(),
{
    if fields.len() == 0 {
        None
    } else if fields[0].name == name {
        Some(fields[0])
    } else {
        find_field(fields.drop_first(), name)
    }
}

/// The key pair extracted from a field list: both `PartitionKey` and
/// `RowKey` must be present (MissingKeyField naming the absent one) and each
/// must be a non-null string (InvalidKeyType).
pub open spec fn keys_sp(fields: Seq<FieldView>) -> Result<(Seq<char>, Seq<char>), ErrorView> {
    match find_field(fields, partition_key()) {
        Option::None => Err(ErrorView::MissingKeyField(partition_key())),
        Option::Some(pf) => match pf.value {
            crate::value::DataTypeView::Str(Option::Some(p)) => match find_field(
                fields,
                row_key(),
            ) {
                Option::None => Err(ErrorView::MissingKeyField(row_key())),
                Option::Some(rf) => match rf.value {
                    crate::value::DataTypeView::Str(Option::Some(r)) => Ok((p, r)),
                    _ => Err(ErrorView::InvalidKeyType(row_key())),
                },
            },
            _ => Err(ErrorView::InvalidKeyType(partition_key())),
        },
    }
}

/// A field that is neither key field.
pub open spec fn not_key(f: FieldView) -> bool {
    f.name != partition_key() && f.name != row_key()
}

/// The entity fields: the key fields are carried separately and excluded.
pub open spec fn remove_keys(fields: Seq<FieldView>) -> Seq<FieldView>
    decreases fields.len(),
{
    if fields.len() == 0 {
        Seq::empty()
    } else {
        let rest = remove_keys(fields.drop_last());
        if not_key(fields.last()) {
            rest.push(fields.last())
        } else {
            rest
        }
    }
}

/// An INSERT: a VALUES keyword, a parenthesised column list before it, a
/// parenthesised placeholder group after it, matching counts, and both keys
/// among the columns.
pub open spec fn insert_sp(q: Seq<char>, params: Seq<DataType>) -> Result<
    ExecPhraseView,
    ErrorView,
> {
    let uq = upper_seq(q);
    match find_from(uq, values_kw(), 0) {
        Option::None => Err(ErrorView::MalformedQuery(values_kw())),
        Option::Some(vp) => match columns_sp(q.subrange(0, vp)) {
            Err(e) => Err(e),
            Ok(cols) => match placeholders_sp(q.subrange(vp + 6, q.len() as int)) {
                Err(e) => Err(e),
                Ok(idxs) => if cols.len() != idxs.len() {
                    Err(ErrorView::ColumnValueMismatch(cols.len() as int, idxs.len() as int))
                } else {
                    match fields_sp(cols, idxs, params, 0, Seq::empty()) {
                        Err(e) => Err(e),
                        Ok(fields) => match keys_sp(fields) {
                            Err(e) => Err(e),
                            Ok(pr) => Ok(
                                ExecPhraseView {
                                    action: ExecAction::Insert,
                                    partition: pr.0,
                                    row: pr.1,
                                    entity: remove_keys(fields),
                                },
                            ),
                        },
                    }
                },
            },
        },
    }
}

/// The `column = $N` equalities of a WHERE clause, in order; parts that are
/// not exactly one `=` with a placeholder right side are skipped.
pub open spec fn wparts_sp(
    parts: Seq<Seq<char>>,
    params: Seq<DataType>,
    k: int,
    acc: Seq<FieldView>,
) -> Result<Seq<FieldView>, ErrorView>
    decreases parts.len() - k when 0 <= k <= parts.len()
{
    if k >= parts.len() {
        Ok(acc)
    } else {
        let eqp = trim_each_sp(split_on(trim_seq(parts[k]), seq!['=']));
        if eqp.len() == 2 {
            match placeholder_index(eqp[1]) {
                Option::Some(ix) => if ix >= params.len() {
                    Err(ErrorView::ParameterOutOfRange(ix + 1))
                } else {
                    wparts_sp(
                        parts,
                        params,
                        k + 1,
                        acc.push(FieldView { name: eqp[0], value: params[ix]@ }),
                    )
                },
                Option::None => wparts_sp(parts, params, k + 1, acc),
            }
        } else {
            wparts_sp(parts, params, k + 1, acc)
        }
    }
}

/// The fields of the WHERE clause: the text after the first ` WHERE `,
/// trimmed, split on ` AND `.
pub open spec fn where_fields_sp(q: Seq<char>, params: Seq<DataType>) -> Result<
    Seq<FieldView>,
    ErrorView,
> {
    let uq = upper_seq(q);
    match find_from(uq, where_pat(), 0) {
        Option::None => Ok(Seq::empty()),
        Option::Some(wp) => {
            let fs = trim_seq(q.subrange(wp + 7, q.len() as int));
            if fs.len() == 0 {
                Err(ErrorView::MissingWhereClause)
            } else {
                wparts_sp(split_on(fs, and_pat()), params, 0, Seq::empty())
            }
        },
    }
}

/// The `column = $N` pairs of an UPDATE's SET clause, comma-separated; each
/// pair must be exactly two `=`-separated tokens with a placeholder right
/// side.
pub open spec fn set_fields_sp(
    pairs: Seq<Seq<char>>,
    params: Seq<DataType>,
    k: int,
    acc: Seq<FieldView>,
) -> Result<Seq<FieldView>, ErrorView>
    decreases pairs.len() - k when 0 <= k <= pairs.len()
{
    if k >= pairs.len() {
        Ok(acc)
    } else {
        let eqp = trim_each_sp(split_on(pairs[k], seq!['=']));
        if eqp.len() != 2 {
            Err(ErrorView::MalformedQuery(pairs[k]))
        } else {
            match placeholder_index(eqp[1]) {
                Option::Some(ix) => if ix >= params.len() {
                    Err(ErrorView::ParameterOutOfRange(ix + 1))
                } else {
                    set_fields_sp(
                        pairs,
                        params,
                        k + 1,
                        acc.push(FieldView { name: eqp[0], value: params[ix]@ }),
                    )
                },
                Option::None => Err(ErrorView::MalformedQuery(eqp[1])),
            }
        }
    }
}

/// The key validation shared by UPDATE and DELETE: a usable WHERE clause,
/// at most the two key equalities, both keys present as non-null strings.
pub open spec fn where_keys_sp(q: Seq<char>, params: Seq<DataType>) -> Result<
    (Seq<char>, Seq<char>),
    ErrorView,
> {
    match where_fields_sp(q, params) {
        Err(e) => Err(e),
        Ok(wf) => if wf.len() == 0 {
            Err(ErrorView::MissingWhereClause)
        } else if wf.len() > 2 {
            Err(ErrorView::UnsupportedPredicate)
        } else {
            keys_sp(wf)
        },
    }
}

/// An UPDATE: a ` SET ` clause of `column = $N` pairs up to an optional
/// ` WHERE `, and a mandatory WHERE naming exactly the two keys.
pub open spec fn update_sp(q: Seq<char>, params: Seq<DataType>) -> Result<
    ExecPhraseView,
    ErrorView,
> {
    let uq = upper_seq(q);
    match find_from(uq, set_pat(), 0) {
        Option::None => Err(ErrorView::MalformedQuery(set_text())),
        Option::Some(sp) => {
            let set_end = match find_from(uq, where_pat(), 0) {
                Option::Some(w) => w,
                Option::None => q.len() as int,
            };
            if set_end < sp + 5 {
                Err(ErrorView::MalformedQuery(set_text()))
            } else {
                let set_part = trim_seq(q.subrange(sp + 5, set_end));
                match set_fields_sp(split_on(set_part, seq![',']), params, 0, Seq::empty()) {
                    Err(e) => Err(e),
                    Ok(fields) => if !has_sub(uq, where_pat()) {
                        Err(ErrorView::MissingWhereClause)
                    } else {
                        match where_keys_sp(q, params) {
                            Err(e) => Err(e),
                            Ok(pr) => Ok(
                                ExecPhraseView {
                                    action: ExecAction::Update,
                                    partition: pr.0,
                                    row: pr.1,
                                    entity: remove_keys(fields),
                                },
                            ),
                        }
                    },
                }
            }
        },
    }
}

/// A DELETE: a mandatory WHERE naming exactly the two keys; no entity
/// fields.
pub open spec fn delete_sp(q: Seq<char>, params: Seq<DataType>) -> Result<
    ExecPhraseView,
    ErrorView,
> {
    let uq = upper_seq(q);
    if !has_sub(uq, where_pat()) {
        Err(ErrorView::MissingWhereClause)
    } else {
        match where_keys_sp(q, params) {
            Err(e) => Err(e),
            Ok(pr) => Ok(
                ExecPhraseView {
                    action: ExecAction::Delete,
                    partition: pr.0,
                    row: pr.1,
                    entity: Seq::empty(),
                },
            ),
        }
    }
}

/// Classification by leading keyword of the trimmed, upper-cased text;
/// anything but INSERT, UPDATE or DELETE is unsupported.
pub open spec fn parse_write_sp(q: Seq<char>, params: Seq<DataType>) -> Result<
    ExecPhraseView,
    ErrorView,
> {
    let u = upper_seq(trim_seq(q));
    if match_at(u, insert_kw(), 0) {
        insert_sp(q, params)
    } else if match_at(u, update_kw(), 0) {
        update_sp(q, params)
    } else if match_at(u, delete_kw(), 0) {
        delete_sp(q, params)
    } else {
        Err(ErrorView::UnsupportedStatement)
    }
}

fn placeholder_index_exec(s: &Vec<char>) -> (r: Option<usize>)
    ensures
        match r {
            Some(ix) => placeholder_index(s@) == Some(ix as int) && ix < usize::MAX,
            None => placeholder_index(s@) is None,
        },
{
    if s.len() > 0 && s[0] == '$' {
        let rest = chars::subrange_vec(s, 1, s.len());
        assert(rest@ =~= s@.drop_first());
        match crate::num_text::parse_usize_chars(&rest) {
            Some(v) => if v >= 1 {
                Some(v - 1)
            } else {
                None
            },
            None => None,
        }
    } else {
        None
    }
}

fn paren_error() -> (e: Error)
    ensures
        e@ == ErrorView::MalformedQuery(paren_marker()),
{
    let pm = vec!['(', ')'];
    assert(pm@ =~= paren_marker());
    Error::MalformedQuery(string_of(&pm))
}

/// The trimmed, comma-separated items of the parenthesised group in `part`.
fn group_items(part: &Vec<char>) -> (r: Result<Vec<Vec<char>>, Error>)
    ensures
        match r {
            Ok(v) => columns_sp(part@) == Ok::<Seq<Seq<char>>, ErrorView>(views(v@))
                && placeholders_sp(part@) == idxs_sp(views(v@), 0, Seq::empty()),
            Err(e) => columns_sp(part@) == Err::<Seq<Seq<char>>, ErrorView>(e@)
                && placeholders_sp(part@) == Err::<Seq<int>, ErrorView>(e@),
        },
{
    let op = match chars::find_char_exec(part, '(') {
        Some(op) => op,
        None => {
            return Err(paren_error());
        },
    };
    let cp = match chars::rfind_char_exec(part, ')') {
        Some(cp) => cp,
        None => {
            return Err(paren_error());
        },
    };
    if op >= cp {
        return Err(paren_error());
    }
    let inner = chars::subrange_vec(part, op + 1, cp);
    let comma = vec![','];
    assert(comma@ =~= seq![',']);
    let pieces = chars::split_all(&inner, &comma);
    let items = chars::trim_each(&pieces);
    Ok(items)
}

pub open spec fn usize_seq(s: Seq<usize>) -> Seq<int> {
    s.map_values(|x: usize| x as int)
}

proof fn lemma_idxs_bounded(entries: Seq<Seq<char>>, k: int, acc: Seq<int>)
    requires
        0 <= k <= entries.len(),
        forall|m: int| 0 <= m < acc.len() ==> 0 <= #[trigger] acc[m] < usize::MAX,
    ensures
        match idxs_sp(entries, k, acc) {
            Ok(s) => forall|m: int| 0 <= m < s.len() ==> 0 <= #[trigger] s[m] < usize::MAX,
            Err(_) => true,
        },
    decreases entries.len() - k,
{
    if k < entries.len() {
        match placeholder_index(entries[k]) {
            Option::Some(ix) => {
                lemma_idxs_bounded(entries, k + 1, acc.push(ix));
            },
            Option::None => {},
        }
    }
}

fn idxs_exec(entries: &Vec<Vec<char>>) -> (r: Result<Vec<usize>, Error>)
    ensures
        match r {
            Ok(v) => idxs_sp(views(entries@), 0, Seq::empty()) == Ok::<Seq<int>, ErrorView>(
                usize_seq(v@),
            ),
            Err(e) => idxs_sp(views(entries@), 0, Seq::empty()) == Err::<Seq<int>, ErrorView>(e@),
        },
{
    let ghost es = views(entries@);
    let mut acc: Vec<usize> = Vec::new();
    let mut k: usize = 0;
    assert(usize_seq(acc@) =~= Seq::<int>::empty());
    while k < entries.len()
        invariant
            0 <= k <= entries@.len(),
            es == views(entries@),
            es.len() == entries@.len(),
            idxs_sp(es, 0, Seq::empty()) == idxs_sp(es, k as int, usize_seq(acc@)),
        decreases entries.len() - k,
    {
        proof {
            assert(es[k as int] == entries@[k as int]@);
        }
        match placeholder_index_exec(&entries[k]) {
            Some(ix) => {
                let ghost a0 = usize_seq(acc@);
                acc.push(ix);
                assert(usize_seq(acc@) =~= a0.push(ix as int));
                k += 1;
            },
            None => {
                return Err(Error::MalformedQuery(string_of(&entries[k])));
            },
        }
    }
    Ok(acc)
}

fn fields_exec(cols: &Vec<Vec<char>>, idxs: &Vec<usize>, params: &[DataType]) -> (r: Result<
    Vec<Field>,
    Error,
>)
    requires
        cols@.len() == idxs@.len(),
        forall|m: int| 0 <= m < idxs@.len() ==> #[trigger] idxs@[m] < usize::MAX,
    ensures
        match r {
            Ok(v) => fields_sp(views(cols@), usize_seq(idxs@), params@, 0, Seq::empty()) == Ok::<
                Seq<FieldView>,
                ErrorView,
            >(field_views(v@)),
            Err(e) => fields_sp(views(cols@), usize_seq(idxs@), params@, 0, Seq::empty()) == Err::<
                Seq<FieldView>,
                ErrorView,
            >(e@),
        },
{
    let ghost cs = views(cols@);
    let ghost is = usize_seq(idxs@);
    let mut acc: Vec<Field> = Vec::new();
    let mut k: usize = 0;
    assert(field_views(acc@) =~= Seq::<FieldView>::empty());
    while k < cols.len()
        invariant
            0 <= k <= cols@.len(),
            cs == views(cols@),
            is == usize_seq(idxs@),
            cs.len() == cols@.len(),
            is.len() == idxs@.len(),
            cols@.len() == idxs@.len(),
            forall|m: int| 0 <= m < idxs@.len() ==> #[trigger] idxs@[m] < usize::MAX,
            fields_sp(cs, is, params@, 0, Seq::empty()) == fields_sp(
                cs,
                is,
                params@,
                k as int,
                field_views(acc@),
            ),
        decreases cols.len() - k,
    {
        let ix = idxs[k];
        proof {
            assert(is[k as int] == idxs@[k as int] as int);
            assert(cs[k as int] == cols@[k as int]@);
        }
        if ix >= params.len() {
            return Err(Error::ParameterOutOfRange(ix + 1));
        }
        let f = Field { name: string_of(&cols[k]), value: params[ix].dup() };
        let ghost a0 = field_views(acc@);
        let ghost fv = f@;
        acc.push(f);
        assert(field_views(acc@) =~= a0.push(fv));
        k += 1;
    }
    Ok(acc)
}

fn find_field_exec(fields: &Vec<Field>, name: &Vec<char>) -> (r: Option<usize>)
    ensures
        match r {
            Some(i) => i < fields@.len() && find_field(field_views(fields@), name@) == Some(
                fields@[i as int]@,
            ),
            None => find_field(field_views(fields@), name@) is None,
        },
{
    let ghost fvs = field_views(fields@);
    let mut k: usize = 0;
    assert(fvs.skip(0) =~= fvs);
    while k < fields.len()
        invariant
            0 <= k <= fields@.len(),
            fvs == field_views(fields@),
            fvs.len() == fields@.len(),
            find_field(fvs, name@) == find_field(fvs.skip(k as int), name@),
        decreases fields.len() - k,
    {
        proof {
            assert(fvs.skip(k as int)[0] == fvs[k as int]);
            assert(fvs[k as int] == fields@[k as int]@);
            assert(fvs.skip(k as int).drop_first() =~= fvs.skip(k + 1));
        }
        let nv = chars_of(fields[k].name.as_str());
        if chars::seq_eq(&nv, name) {
            return Some(k);
        }
        k += 1;
    }
    None
}

/// Extract the key pair from a field list.
fn extract_keys(fields: &Vec<Field>) -> (r: Result<(String, String), Error>)
    ensures
        match r {
            Ok(pr) => keys_sp(field_views(fields@)) == Ok::<(Seq<char>, Seq<char>), ErrorView>(
                (pr.0@, pr.1@),
            ),
            Err(e) => keys_sp(field_views(fields@)) == Err::<(Seq<char>, Seq<char>), ErrorView>(
                e@,
            ),
        },
{
    let pk = vec!['P', 'a', 'r', 't', 'i', 't', 'i', 'o', 'n', 'K', 'e', 'y'];
    let rk = vec!['R', 'o', 'w', 'K', 'e', 'y'];
    assert(pk@ =~= partition_key());
    assert(rk@ =~= row_key());
    let pi = match find_field_exec(fields, &pk) {
        Some(i) => i,
        None => {
            return Err(Error::MissingKeyField(string_of(&pk)));
        },
    };
    let p = match &fields[pi].value {
        DataType::Str(Option::Some(s)) => s.clone(),
        _ => {
            return Err(Error::InvalidKeyType(string_of(&pk)));
        },
    };
    let ri = match find_field_exec(fields, &rk) {
        Some(i) => i,
        None => {
            return Err(Error::MissingKeyField(string_of(&rk)));
        },
    };
    let rv = match &fields[ri].value {
        DataType::Str(Option::Some(s)) => s.clone(),
        _ => {
            return Err(Error::InvalidKeyType(string_of(&rk)));
        },
    };
    Ok((p, rv))
}

/// The fields with the two key fields removed, order kept.
fn remove_keys_exec(fields: &Vec<Field>) -> (r: Vec<Field>)
    ensures
        field_views(r@) == remove_keys(field_views(fields@)),
{
    let ghost fvs = field_views(fields@);
    let pk = vec!['P', 'a', 'r', 't', 'i', 't', 'i', 'o', 'n', 'K', 'e', 'y'];
    let rk = vec!['R', 'o', 'w', 'K', 'e', 'y'];
    assert(pk@ =~= partition_key());
    assert(rk@ =~= row_key());
    let mut r: Vec<Field> = Vec::new();
    let mut k: usize = 0;
    assert(fvs.take(0) =~= Seq::<FieldView>::empty());
    assert(field_views(r@) =~= Seq::<FieldView>::empty());
    while k < fields.len()
        invariant
            0 <= k <= fields@.len(),
            fvs == field_views(fields@),
            fvs.len() == fields@.len(),
            pk@ == partition_key(),
            rk@ == row_key(),
            field_views(r@) == remove_keys(fvs.take(k as int)),
        decreases fields.len() - k,
    {
        proof {
            assert(fvs[k as int] == fields@[k as int]@);
            assert(fvs.take(k + 1).drop_last() =~= fvs.take(k as int));
            assert(fvs.take(k + 1).last() == fvs[k as int]);
        }
        let nv = chars_of(fields[k].name.as_str());
        let keep = !chars::seq_eq(&nv, &pk) && !chars::seq_eq(&nv, &rk);
        assert(keep == not_key(fvs[k as int]));
        if keep {
            let f = Field { name: fields[k].name.clone(), value: fields[k].value.dup() };
            let ghost a0 = field_views(r@);
            let ghost fv = f@;
            r.push(f);
            assert(field_views(r@) =~= a0.push(fv));
            assert(fv == fvs[k as int]);
        }
        k += 1;
    }
    assert(fvs.take(fvs.len() as int) =~= fvs);
    r
}

fn where_fields_exec(q: &Vec<char>, params: &[DataType]) -> (r: Result<Vec<Field>, Error>)
    ensures
        match r {
            Ok(v) => where_fields_sp(q@, params@) == Ok::<Seq<FieldView>, ErrorView>(
                field_views(v@),
            ),
            Err(e) => where_fields_sp(q@, params@) == Err::<Seq<FieldView>, ErrorView>(e@),
        },
{
    let uq = chars::to_upper(q);
    let wp_v = vec![' ', 'W', 'H', 'E', 'R', 'E', ' '];
    assert(wp_v@ =~= where_pat());
    let wp = match chars::find_sub(&uq, &wp_v) {
        Some(wp) => wp,
        None => {
            let empty_fields: Vec<Field> = Vec::new();
            assert(field_views(empty_fields@) =~= Seq::<FieldView>::empty());
            return Ok(empty_fields);
        },
    };
    let ql = q.len();
    proof {
        crate::chars::lemma_find_from(uq@, wp_v@, 0);
        assert(match_at(uq@, where_pat(), wp as int));
        assert(uq@.len() == q@.len());
        assert(wp + 7 <= ql);
    }
    let rest = chars::subrange_vec(q, wp + 7, q.len());
    let fs = chars::trim(&rest);
    if fs.len() == 0 {
        return Err(Error::MissingWhereClause);
    }
    let and_v = vec![' ', 'A', 'N', 'D', ' '];
    assert(and_v@ =~= and_pat());
    let parts = chars::split_all(&fs, &and_v);
    let ghost ps = views(parts@);
    let mut acc: Vec<Field> = Vec::new();
    let mut k: usize = 0;
    assert(field_views(acc@) =~= Seq::<FieldView>::empty());
    assert(where_fields_sp(q@, params@) == wparts_sp(ps, params@, 0, Seq::empty()));
    while k < parts.len()
        invariant
            0 <= k <= parts@.len(),
            ps == views(parts@),
            ps.len() == parts@.len(),
            where_fields_sp(q@, params@) == wparts_sp(ps, params@, 0, Seq::empty()),
            wparts_sp(ps, params@, 0, Seq::empty()) == wparts_sp(
                ps,
                params@,
                k as int,
                field_views(acc@),
            ),
        decreases parts.len() - k,
    {
        proof {
            assert(ps[k as int] == parts@[k as int]@);
        }
        let tp = chars::trim(&parts[k]);
        let eq_v = vec!['='];
        assert(eq_v@ =~= seq!['=']);
        let raw = chars::split_all(&tp, &eq_v);
        let eqp = chars::trim_each(&raw);
        if eqp.len() == 2 {
            proof {
                assert(views(eqp@)[0] == eqp@[0]@);
                assert(views(eqp@)[1] == eqp@[1]@);
            }
            match placeholder_index_exec(&eqp[1]) {
                Some(ix) => {
                    if ix >= params.len() {
                        return Err(Error::ParameterOutOfRange(ix + 1));
                    }
                    let f = Field { name: string_of(&eqp[0]), value: params[ix].dup() };
                    let ghost a0 = field_views(acc@);
                    let ghost fv = f@;
                    acc.push(f);
                    assert(field_views(acc@) =~= a0.push(fv));
                },
                None => {},
            }
        }
        k += 1;
    }
    Ok(acc)
}

fn set_fields_exec(pairs: &Vec<Vec<char>>, params: &[DataType]) -> (r: Result<Vec<Field>, Error>)
    ensures
        match r {
            Ok(v) => set_fields_sp(views(pairs@), params@, 0, Seq::empty()) == Ok::<
                Seq<FieldView>,
                ErrorView,
            >(field_views(v@)),
            Err(e) => set_fields_sp(views(pairs@), params@, 0, Seq::empty()) == Err::<
                Seq<FieldView>,
                ErrorView,
            >(e@),
        },
{
    let ghost ps = views(pairs@);
    let mut acc: Vec<Field> = Vec::new();
    let mut k: usize = 0;
    assert(field_views(acc@) =~= Seq::<FieldView>::empty());
    while k < pairs.len()
        invariant
            0 <= k <= pairs@.len(),
            ps == views(pairs@),
            ps.len() == pairs@.len(),
            set_fields_sp(ps, params@, 0, Seq::empty()) == set_fields_sp(
                ps,
                params@,
                k as int,
                field_views(acc@),
            ),
        decreases pairs.len() - k,
    {
        proof {
            assert(ps[k as int] == pairs@[k as int]@);
        }
        let eq_v = vec!['='];
        assert(eq_v@ =~= seq!['=']);
        let raw = chars::split_all(&pairs[k], &eq_v);
        let eqp = chars::trim_each(&raw);
        if eqp.len() != 2 {
            return Err(Error::MalformedQuery(string_of(&pairs[k])));
        }
        proof {
            assert(views(eqp@)[0] == eqp@[0]@);
            assert(views(eqp@)[1] == eqp@[1]@);
        }
        match placeholder_index_exec(&eqp[1]) {
            Some(ix) => {
                if ix >= params.len() {
                    return Err(Error::ParameterOutOfRange(ix + 1));
                }
                let f = Field { name: string_of(&eqp[0]), value: params[ix].dup() };
                let ghost a0 = field_views(acc@);
                let ghost fv = f@;
                acc.push(f);
                assert(field_views(acc@) =~= a0.push(fv));
            },
            None => {
                return Err(Error::MalformedQuery(string_of(&eqp[1])));
            },
        }
        k += 1;
    }
    Ok(acc)
}

/// The shared WHERE-key validation of UPDATE and DELETE.
fn where_keys_exec(q: &Vec<char>, params: &[DataType]) -> (r: Result<(String, String), Error>)
    ensures
        match r {
            Ok(pr) => where_keys_sp(q@, params@) == Ok::<(Seq<char>, Seq<char>), ErrorView>(
                (pr.0@, pr.1@),
            ),
            Err(e) => where_keys_sp(q@, params@) == Err::<(Seq<char>, Seq<char>), ErrorView>(e@),
        },
{
    let wf = match where_fields_exec(q, params) {
        Ok(v) => v,
        Err(e) => {
            return Err(e);
        },
    };
    if wf.len() == 0 {
        return Err(Error::MissingWhereClause);
    }
    if wf.len() > 2 {
        return Err(Error::UnsupportedPredicate);
    }
    extract_keys(&wf)
}

impl ExecPhrase {
    /// Compile one modifying statement with its positional parameters.
    ///
    /// The statement is classified by its leading keyword; anything but
    /// INSERT, UPDATE or DELETE fails UnsupportedStatement. The compiled
    /// form addresses exactly one entity: PartitionKey and RowKey must both
    /// be supplied (MissingKeyField names the absent one), must resolve to
    /// non-null strings (InvalidKeyType), and UPDATE and DELETE admit no
    /// further WHERE condition (UnsupportedPredicate).
    pub fn parse(query: &str, params: &[DataType]) -> (r: Result<ExecPhrase, Error>)
        ensures
            match r {
                Ok(p) => parse_write_sp(query@, params@) == Ok::<ExecPhraseView, ErrorView>(p@),
                Err(e) => parse_write_sp(query@, params@) == Err::<ExecPhraseView, ErrorView>(e@),
            },
    {
        let qv = chars_of(query);
        let tq = chars::trim(&qv);
        let u = chars::to_upper(&tq);
        let insert_v = vec!['I', 'N', 'S', 'E', 'R', 'T'];
        let update_v = vec!['U', 'P', 'D', 'A', 'T', 'E'];
        let delete_v = vec!['D', 'E', 'L', 'E', 'T', 'E'];
        assert(insert_v@ =~= insert_kw());
        assert(update_v@ =~= update_kw());
        assert(delete_v@ =~= delete_kw());
        if chars::starts_with(&u, &insert_v) {
            Self::parse_insert(&qv, params)
        } else if chars::starts_with(&u, &update_v) {
            Self::parse_update(&qv, params)
        } else if chars::starts_with(&u, &delete_v) {
            Self::parse_delete(&qv, params)
        } else {
            Err(Error::UnsupportedStatement)
        }
    }

    fn parse_insert(qv: &Vec<char>, params: &[DataType]) -> (r: Result<ExecPhrase, Error>)
        ensures
            match r {
                Ok(p) => insert_sp(qv@, params@) == Ok::<ExecPhraseView, ErrorView>(p@),
                Err(e) => insert_sp(qv@, params@) == Err::<ExecPhraseView, ErrorView>(e@),
            },
    {
        let uq = chars::to_upper(qv);
        let values_v = vec!['V', 'A', 'L', 'U', 'E', 'S'];
        assert(values_v@ =~= values_kw());
        let vp = match chars::find_sub(&uq, &values_v) {
            Some(vp) => vp,
            None => {
                return Err(Error::MalformedQuery(string_of(&values_v)));
            },
        };
        let ql = qv.len();
        proof {
            crate::chars::lemma_find_from(uq@, values_v@, 0);
            assert(match_at(uq@, values_kw(), vp as int));
            assert(uq@.len() == qv@.len());
            assert(vp + 6 <= ql);
        }
        let head = chars::subrange_vec(qv, 0, vp);
        let cols = match group_items(&head) {
            Ok(v) => v,
            Err(e) => {
                return Err(e);
            },
        };
        let tail = chars::subrange_vec(qv, vp + 6, qv.len());
        let entries = match group_items(&tail) {
            Ok(v) => v,
            Err(e) => {
                return Err(e);
            },
        };
        let idxs = match idxs_exec(&entries) {
            Ok(v) => v,
            Err(e) => {
                return Err(e);
            },
        };
        if cols.len() != idxs.len() {
            return Err(Error::ColumnValueMismatch(cols.len(), idxs.len()));
        }
        proof {
            lemma_idxs_bounded(views(entries@), 0, Seq::empty());
            assert forall|m: int| 0 <= m < idxs@.len() implies #[trigger] idxs@[m] < usize::MAX by {
                assert(usize_seq(idxs@)[m] == idxs@[m] as int);
            }
        }
        let fields = match fields_exec(&cols, &idxs, params) {
            Ok(v) => v,
            Err(e) => {
                return Err(e);
            },
        };
        let keys = match extract_keys(&fields) {
            Ok(v) => v,
            Err(e) => {
                return Err(e);
            },
        };
        let entity = remove_keys_exec(&fields);
        Ok(ExecPhrase { action: ExecAction::Insert, partition: keys.0, row: keys.1, entity })
    }

    fn parse_update(qv: &Vec<char>, params: &[DataType]) -> (r: Result<ExecPhrase, Error>)
        ensures
            match r {
                Ok(p) => update_sp(qv@, params@) == Ok::<ExecPhraseView, ErrorView>(p@),
                Err(e) => update_sp(qv@, params@) == Err::<ExecPhraseView, ErrorView>(e@),
            },
    {
        let uq = chars::to_upper(qv);
        let set_v = vec![' ', 'S', 'E', 'T', ' '];
        let set_t = vec!['S', 'E', 'T'];
        assert(set_v@ =~= set_pat());
        assert(set_t@ =~= set_text());
        let sp = match chars::find_sub(&uq, &set_v) {
            Some(sp) => sp,
            None => {
                return Err(Error::MalformedQuery(string_of(&set_t)));
            },
        };
        let ql = qv.len();
        proof {
            crate::chars::lemma_find_from(uq@, set_v@, 0);
            assert(match_at(uq@, set_pat(), sp as int));
            assert(uq@.len() == qv@.len());
            assert(sp + 5 <= ql);
        }
        let wp_v = vec![' ', 'W', 'H', 'E', 'R', 'E', ' '];
        assert(wp_v@ =~= where_pat());
        let has_where: bool;
        let set_end = match chars::find_sub(&uq, &wp_v) {
            Some(w) => {
                has_where = true;
                proof {
                    crate::chars::lemma_find_from(uq@, wp_v@, 0);
                    assert(match_at(uq@, where_pat(), w as int));
                }
                w
            },
            None => {
                has_where = false;
                qv.len()
            },
        };
        proof {
            crate::chars::lemma_find_from_zero(uq@, wp_v@);
        }
        if set_end < sp + 5 {
            return Err(Error::MalformedQuery(string_of(&set_t)));
        }
        let mid = chars::subrange_vec(qv, sp + 5, set_end);
        let set_part = chars::trim(&mid);
        let comma = vec![','];
        assert(comma@ =~= seq![',']);
        let pairs = chars::split_all(&set_part, &comma);
        let fields = match set_fields_exec(&pairs, params) {
            Ok(v) => v,
            Err(e) => {
                return Err(e);
            },
        };
        if !has_where {
            return Err(Error::MissingWhereClause);
        }
        let keys = match where_keys_exec(qv, params) {
            Ok(v) => v,
            Err(e) => {
                return Err(e);
            },
        };
        let entity = remove_keys_exec(&fields);
        Ok(
            ExecPhrase {
                action: ExecAction::Update,
                partition: keys.0,
                row: keys.1,
                entity,
            },
        )
    }

    fn parse_delete(qv: &Vec<char>, params: &[DataType]) -> (r: Result<ExecPhrase, Error>)
        ensures
            match r {
                Ok(p) => delete_sp(qv@, params@) == Ok::<ExecPhraseView, ErrorView>(p@),
                Err(e) => delete_sp(qv@, params@) == Err::<ExecPhraseView, ErrorView>(e@),
            },
    {
        let uq = chars::to_upper(qv);
        let wp_v = vec![' ', 'W', 'H', 'E', 'R', 'E', ' '];
        assert(wp_v@ =~= where_pat());
        proof {
            crate::chars::lemma_find_from_zero(uq@, wp_v@);
        }
        if !chars::contains_sub(&uq, &wp_v) {
            return Err(Error::MissingWhereClause);
        }
        let keys = match where_keys_exec(qv, params) {
            Ok(v) => v,
            Err(e) => {
                return Err(e);
            },
        };
        let entity: Vec<Field> = Vec::new();
        assert(field_views(entity@) =~= Seq::<FieldView>::empty());
        Ok(
            ExecPhrase {
                action: ExecAction::Delete,
                partition: keys.0,
                row: keys.1,
                entity,
            },
        )
    }
}

} // verus!
