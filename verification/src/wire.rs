//! The entity marshaller and unmarshaller: an internal field list is encoded
//! to the store's wire JSON pairs, with the EDM type tag beside every value
//! whose type the JSON shape alone cannot convey, and a wire entity is
//! decoded back to a typed row.

use vstd::prelude::*;

use crate::b64::{b64_decode, b64_encode, base64_of};
use crate::chars::{self, match_at};
use crate::error::{Error, ErrorView};
use crate::json::{as_i64_sp, lookup_sp, pair_views, JsonValue, WireVal};
use crate::num_text::{i64_dec, u64_dec};
use crate::stmt::{partition_key, row_key, ExecPhrase};
use crate::text::{chars_of, string_of};
use crate::value::{field_views, DataType, DataTypeView, Field, FieldView, Row, RowView};

verus! {

pub open spec fn edm_binary() -> Seq<char> {
    seq!['E', 'd', 'm', '.', 'B', 'i', 'n', 'a', 'r', 'y']
}

pub open spec fn edm_boolean() -> Seq<char> {
    seq!['E', 'd', 'm', '.', 'B', 'o', 'o', 'l', 'e', 'a', 'n']
}

pub open spec fn edm_datetime() -> Seq<char> {
    seq!['E', 'd', 'm', '.', 'D', 'a', 't', 'e', 'T', 'i', 'm', 'e']
}

pub open spec fn edm_double() -> Seq<char> {
    seq!['E', 'd', 'm', '.', 'D', 'o', 'u', 'b', 'l', 'e']
}

pub open spec fn edm_string() -> Seq<char> {
    seq!['E', 'd', 'm', '.', 'S', 't', 'r', 'i', 'n', 'g']
}

pub open spec fn edm_guid() -> Seq<char> {
    seq!['E', 'd', 'm', '.', 'G', 'u', 'i', 'd']
}

pub open spec fn edm_int32() -> Seq<char> {
    seq!['E', 'd', 'm', '.', 'I', 'n', 't', '3', '2']
}

pub open spec fn edm_int64() -> Seq<char> {
    seq!['E', 'd', 'm', '.', 'I', 'n', 't', '6', '4']
}

/// The store's metadata prefix on system pairs.
pub open spec fn odata_prefix() -> Seq<char> {
    seq!['o', 'd', 'a', 't', 'a', '.']
}

/// The suffix of a type-tag pair's name.
pub open spec fn type_suffix() -> Seq<char> {
    seq!['@', 'o', 'd', 'a', 't', 'a', '.', 't', 'y', 'p', 'e']
}

pub open spec fn timestamp_key() -> Seq<char> {
    seq!['T', 'i', 'm', 'e', 's', 't', 'a', 'm', 'p']
}

/// The tag inferred from a wire value's JSON shape, where no explicit tag
/// accompanies it.
pub open spec fn infer_sp(v: WireVal) -> Seq<char> {
    match v {
        WireVal::Bool(_) => edm_boolean(),
        WireVal::Float(_) => edm_double(),
        WireVal::Int(_) => edm_int32(),
        WireVal::Uint(_) => edm_int32(),
        _ => edm_string(),
    }
}

/// What `as_f64` yields, as decimal text: a float's own text, an integer's
/// decimal digits.
pub open spec fn as_f64_text_sp(v: WireVal) -> Option<Seq<char>> {
    match v {
        WireVal::Float(t) => Some(t),
        WireVal::Int(n) => Some(i64_dec(n as int)),
        WireVal::Uint(u) => Some(u64_dec(u as int)),
        _ => None,
    }
}

/// Conversion of one wire value under a resolved tag. Binary decodes base64
/// (InvalidEncoding on failure); Int32 must fit the signed 32-bit range
/// (NumericOverflow); an unrecognised tag fails UnsupportedType; a value of
/// the wrong shape for its tag converts to the tag's absent value.
pub open spec fn convert_sp(name: Seq<char>, v: WireVal, tag: Seq<char>) -> Result<
    DataTypeView,
    ErrorView,
> {
    if tag == edm_binary() {
        match v {
            WireVal::Str(s) => if exists|b: Seq<u8>| base64_of(b) == s {
                Ok(DataTypeView::Binary(Some(choose|b: Seq<u8>| base64_of(b) == s)))
            } else {
                Err(ErrorView::InvalidEncoding(name))
            },
            _ => Ok(DataTypeView::Binary(None)),
        }
    } else if tag == edm_boolean() {
        match v {
            WireVal::Bool(b) => Ok(DataTypeView::Boolean(Some(b))),
            _ => Ok(DataTypeView::Boolean(None)),
        }
    } else if tag == edm_datetime() {
        match v {
            WireVal::Str(s) => Ok(DataTypeView::Timestamp(Some(s))),
            _ => Ok(DataTypeView::Timestamp(None)),
        }
    } else if tag == edm_double() {
        match as_f64_text_sp(v) {
            Some(t) => Ok(DataTypeView::Double(Some(t))),
            None => Ok(DataTypeView::Double(None)),
        }
    } else if tag == edm_string() || tag == edm_guid() {
        match v {
            WireVal::Str(s) => Ok(DataTypeView::Str(Some(s))),
            _ => Ok(DataTypeView::Str(None)),
        }
    } else if tag == edm_int32() {
        match as_i64_sp(v) {
            Some(n) => if i32::MIN <= n <= i32::MAX {
                Ok(DataTypeView::Int32(Some(n as i32)))
            } else {
                Err(ErrorView::NumericOverflow(name))
            },
            None => Ok(DataTypeView::Int32(None)),
        }
    } else if tag == edm_int64() {
        match as_i64_sp(v) {
            Some(n) => Ok(DataTypeView::Int64(Some(n))),
            None => Ok(DataTypeView::Int64(None)),
        }
    } else {
        Err(ErrorView::UnsupportedType(tag))
    }
}

/// One row decoded from a wire entity's pairs, scanned in order. System
/// pairs are skipped: names with the metadata prefix, the two key names (a
/// string RowKey seeds the row's index), the modification-time name, and
/// type-tag names. Every other pair converts under its sibling tag, or under
/// the inferred tag where the sibling is absent or not a string.
pub open spec fn row_fold(
    all: Seq<(Seq<char>, WireVal)>,
    k: int,
    idx: Seq<char>,
    fields: Seq<FieldView>,
) -> Result<RowView, ErrorView>
    decreases all.len() - k when 0 <= k <= all.len()
{
    if k >= all.len() {
        Ok(RowView { index: idx, fields })
    } else {
        let name = all[k].0;
        let v = all[k].1;
        if match_at(name, odata_prefix(), 0) {
            row_fold(all, k + 1, idx, fields)
        } else if name == row_key() {
            row_fold(
                all,
                k + 1,
                match v {
                    WireVal::Str(s) => s,
                    _ => idx,
                },
                fields,
            )
        } else if name == partition_key() || name == timestamp_key() {
            row_fold(all, k + 1, idx, fields)
        } else if name.len() >= 11 && match_at(name, type_suffix(), name.len() - 11) {
            row_fold(all, k + 1, idx, fields)
        } else {
            let tag = match lookup_sp(all, name + type_suffix()) {
                Some(WireVal::Str(t)) => t,
                _ => infer_sp(v),
            };
            match convert_sp(name, v, tag) {
                Err(e) => Err(e),
                Ok(dv) => row_fold(
                    all,
                    k + 1,
                    idx,
                    fields.push(FieldView { name: name, value: dv }),
                ),
            }
        }
    }
}

pub open spec fn row_sp(pairs: Seq<(Seq<char>, WireVal)>) -> Result<RowView, ErrorView> {
    row_fold(pairs, 0, Seq::empty(), Seq::empty())
}

/// All rows of a response: one per entity, in order.
pub open spec fn rows_fold(
    es: Seq<Seq<(Seq<char>, WireVal)>>,
    k: int,
    acc: Seq<RowView>,
) -> Result<Seq<RowView>, ErrorView>
    decreases es.len() - k when 0 <= k <= es.len()
{
    if k >= es.len() {
        Ok(acc)
    } else {
        match row_sp(es[k]) {
            Err(e) => Err(e),
            Ok(row) => rows_fold(es, k + 1, acc.push(row)),
        }
    }
}

pub open spec fn entity_views(es: Seq<Vec<(String, JsonValue)>>) -> Seq<
    Seq<(Seq<char>, WireVal)>,
> {
    es.map_values(|e: Vec<(String, JsonValue)>| pair_views(e@))
}

pub open spec fn row_views(rs: Seq<Row>) -> Seq<RowView> {
    rs.map_values(|r: Row| r@)
}

fn infer_exec(v: &JsonValue) -> (r: Vec<char>)
    ensures
        r@ == infer_sp(v@),
{
    match v {
        JsonValue::Bool(_) => {
            let t = vec!['E', 'd', 'm', '.', 'B', 'o', 'o', 'l', 'e', 'a', 'n'];
            assert(t@ =~= edm_boolean());
            t
        },
        JsonValue::Float(_) => {
            let t = vec!['E', 'd', 'm', '.', 'D', 'o', 'u', 'b', 'l', 'e'];
            assert(t@ =~= edm_double());
            t
        },
        JsonValue::Int(_) => {
            let t = vec!['E', 'd', 'm', '.', 'I', 'n', 't', '3', '2'];
            assert(t@ =~= edm_int32());
            t
        },
        JsonValue::Uint(_) => {
            let t = vec!['E', 'd', 'm', '.', 'I', 'n', 't', '3', '2'];
            assert(t@ =~= edm_int32());
            t
        },
        _ => {
            let t = vec!['E', 'd', 'm', '.', 'S', 't', 'r', 'i', 'n', 'g'];
            assert(t@ =~= edm_string());
            t
        },
    }
}

/// Convert one wire value under a resolved tag.
fn convert(name: &Vec<char>, v: &JsonValue, tag: &Vec<char>) -> (r: Result<DataType, Error>)
    ensures
        match r {
            Ok(d) => convert_sp(name@, v@, tag@) == Ok::<DataTypeView, ErrorView>(d@),
            Err(e) => convert_sp(name@, v@, tag@) == Err::<DataTypeView, ErrorView>(e@),
        },
{
    let t_binary = vec!['E', 'd', 'm', '.', 'B', 'i', 'n', 'a', 'r', 'y'];
    let t_boolean = vec!['E', 'd', 'm', '.', 'B', 'o', 'o', 'l', 'e', 'a', 'n'];
    let t_datetime = vec!['E', 'd', 'm', '.', 'D', 'a', 't', 'e', 'T', 'i', 'm', 'e'];
    let t_double = vec!['E', 'd', 'm', '.', 'D', 'o', 'u', 'b', 'l', 'e'];
    let t_string = vec!['E', 'd', 'm', '.', 'S', 't', 'r', 'i', 'n', 'g'];
    let t_guid = vec!['E', 'd', 'm', '.', 'G', 'u', 'i', 'd'];
    let t_int32 = vec!['E', 'd', 'm', '.', 'I', 'n', 't', '3', '2'];
    let t_int64 = vec!['E', 'd', 'm', '.', 'I', 'n', 't', '6', '4'];
    assert(t_binary@ =~= edm_binary());
    assert(t_boolean@ =~= edm_boolean());
    assert(t_datetime@ =~= edm_datetime());
    assert(t_double@ =~= edm_double());
    assert(t_string@ =~= edm_string());
    assert(t_guid@ =~= edm_guid());
    assert(t_int32@ =~= edm_int32());
    assert(t_int64@ =~= edm_int64());
    if chars::seq_eq(tag, &t_binary) {
        match v {
            JsonValue::Str(s) => match b64_decode(s.as_str()) {
                Some(d) => Ok(DataType::Binary(Some(d))),
                None => Err(Error::InvalidEncoding(string_of(name))),
            },
            _ => Ok(DataType::Binary(None)),
        }
    } else if chars::seq_eq(tag, &t_boolean) {
        match v {
            JsonValue::Bool(b) => Ok(DataType::Boolean(Some(*b))),
            _ => Ok(DataType::Boolean(None)),
        }
    } else if chars::seq_eq(tag, &t_datetime) {
        match v {
            JsonValue::Str(s) => Ok(DataType::Timestamp(Some(s.clone()))),
            _ => Ok(DataType::Timestamp(None)),
        }
    } else if chars::seq_eq(tag, &t_double) {
        match v {
            JsonValue::Float(t) => Ok(DataType::Double(Some(t.clone()))),
            JsonValue::Int(n) => Ok(
                DataType::Double(Some(string_of(&crate::num_text::i64_to_chars(*n)))),
            ),
            JsonValue::Uint(u) => Ok(
                DataType::Double(Some(string_of(&crate::num_text::u64_to_chars(*u)))),
            ),
            _ => Ok(DataType::Double(None)),
        }
    } else if chars::seq_eq(tag, &t_string) || chars::seq_eq(tag, &t_guid) {
        match v {
            JsonValue::Str(s) => Ok(DataType::Str(Some(s.clone()))),
            _ => Ok(DataType::Str(None)),
        }
    } else if chars::seq_eq(tag, &t_int32) {
        let n: Option<i64> = match v {
            JsonValue::Int(n) => Some(*n),
            JsonValue::Uint(u) => if *u <= i64::MAX as u64 {
                Some(*u as i64)
            } else {
                None
            },
            _ => None,
        };
        match n {
            Some(n) => {
                if i32::MIN as i64 <= n && n <= i32::MAX as i64 {
                    Ok(DataType::Int32(Some(n as i32)))
                } else {
                    Err(Error::NumericOverflow(string_of(name)))
                }
            },
            None => Ok(DataType::Int32(None)),
        }
    } else if chars::seq_eq(tag, &t_int64) {
        match v {
            JsonValue::Int(n) => Ok(DataType::Int64(Some(*n))),
            JsonValue::Uint(u) => if *u <= i64::MAX as u64 {
                Ok(DataType::Int64(Some(*u as i64)))
            } else {
                Ok(DataType::Int64(None))
            },
            _ => Ok(DataType::Int64(None)),
        }
    } else {
        Err(Error::UnsupportedType(string_of(tag)))
    }
}

/// Decode one wire entity into a row.
fn row_exec(pairs: &Vec<(String, JsonValue)>) -> (r: Result<Row, Error>)
    ensures
        match r {
            Ok(row) => row_sp(pair_views(pairs@)) == Ok::<RowView, ErrorView>(row@),
            Err(e) => row_sp(pair_views(pairs@)) == Err::<RowView, ErrorView>(e@),
        },
{
    let ghost ps = pair_views(pairs@);
    let mut idx: String = String::new();
    let mut fields: Vec<Field> = Vec::new();
    let mut k: usize = 0;
    assert(field_views(fields@) =~= Seq::<FieldView>::empty());
    assert(idx@ =~= Seq::<char>::empty());
    while k < pairs.len()
        invariant
            0 <= k <= pairs@.len(),
            ps == pair_views(pairs@),
            ps.len() == pairs@.len(),
            row_sp(ps) == row_fold(ps, k as int, idx@, field_views(fields@)),
        decreases pairs.len() - k,
    {
        proof {
            assert(ps[k as int] == (pairs@[k as int].0@, pairs@[k as int].1@));
        }
        let name_v = chars_of(pairs[k].0.as_str());
        let odata_v = vec!['o', 'd', 'a', 't', 'a', '.'];
        let rk_v = vec!['R', 'o', 'w', 'K', 'e', 'y'];
        let pk_v = vec!['P', 'a', 'r', 't', 'i', 't', 'i', 'o', 'n', 'K', 'e', 'y'];
        let ts_v = vec!['T', 'i', 'm', 'e', 's', 't', 'a', 'm', 'p'];
        let suffix_v = vec!['@', 'o', 'd', 'a', 't', 'a', '.', 't', 'y', 'p', 'e'];
        assert(odata_v@ =~= odata_prefix());
        assert(rk_v@ =~= row_key());
        assert(pk_v@ =~= partition_key());
        assert(ts_v@ =~= timestamp_key());
        assert(suffix_v@ =~= type_suffix());
        if chars::starts_with(&name_v, &odata_v) {
        } else if chars::seq_eq(&name_v, &rk_v) {
            match &pairs[k].1 {
                JsonValue::Str(s) => {
                    idx = s.clone();
                },
                _ => {},
            }
        } else if chars::seq_eq(&name_v, &pk_v) || chars::seq_eq(&name_v, &ts_v) {
        } else if name_v.len() >= 11 && chars::match_at_exec(&name_v, &suffix_v, name_v.len() - 11) {
        } else {
            let mut type_key = chars::subrange_vec(&name_v, 0, name_v.len());
            chars::push_all(&mut type_key, &suffix_v);
            assert(type_key@ =~= name_v@ + type_suffix());
            let tag: Vec<char> = match crate::json::lookup(pairs, &type_key) {
                Some(tv) => match tv {
                    JsonValue::Str(t) => chars_of(t.as_str()),
                    _ => infer_exec(&pairs[k].1),
                },
                None => infer_exec(&pairs[k].1),
            };
            match convert(&name_v, &pairs[k].1, &tag) {
                Ok(dv) => {
                    let f = Field { name: pairs[k].0.clone(), value: dv };
                    let ghost a0 = field_views(fields@);
                    let ghost fv = f@;
                    fields.push(f);
                    assert(field_views(fields@) =~= a0.push(fv));
                },
                Err(e) => {
                    return Err(e);
                },
            }
        }
        k += 1;
    }
    Ok(Row { index: idx, fields })
}

/// Decode a response's entities, one row per entity; a string RowKey seeds
/// each row's index.
pub fn parse(entities: &Vec<Vec<(String, JsonValue)>>) -> (r: Result<Vec<Row>, Error>)
    ensures
        match r {
            Ok(rows) => rows_fold(entity_views(entities@), 0, Seq::empty()) == Ok::<
                Seq<RowView>,
                ErrorView,
            >(row_views(rows@)),
            Err(e) => rows_fold(entity_views(entities@), 0, Seq::empty()) == Err::<
                Seq<RowView>,
                ErrorView,
            >(e@),
        },
{
    let ghost es = entity_views(entities@);
    let mut rows: Vec<Row> = Vec::new();
    let mut k: usize = 0;
    assert(row_views(rows@) =~= Seq::<RowView>::empty());
    while k < entities.len()
        invariant
            0 <= k <= entities@.len(),
            es == entity_views(entities@),
            es.len() == entities@.len(),
            rows_fold(es, 0, Seq::empty()) == rows_fold(es, k as int, row_views(rows@)),
        decreases entities.len() - k,
    {
        proof {
            assert(es[k as int] == pair_views(entities@[k as int]@));
        }
        match row_exec(&entities[k]) {
            Ok(row) => {
                let ghost a0 = row_views(rows@);
                let ghost rv = row@;
                rows.push(row);
                assert(row_views(rows@) =~= a0.push(rv));
            },
            Err(e) => {
                return Err(e);
            },
        }
        k += 1;
    }
    Ok(rows)
}

/// The wire pairs one field contributes: nothing for an absent value (the
/// wire format has no null; omission signals absence), the encoded value,
/// and a type tag where the JSON shape cannot convey the type. A Uint64
/// above the signed 64-bit range cannot be stored (NumericOverflow).
pub open spec fn field_pairs(f: FieldView) -> Result<Seq<(Seq<char>, WireVal)>, ErrorView> {
    match f.value {
        DataTypeView::Binary(o) => match o {
            Option::Some(d) => Ok(
                seq![
                    (f.name, WireVal::Str(base64_of(d))),
                    (f.name + type_suffix(), WireVal::Str(edm_binary())),
                ],
            ),
            Option::None => Ok(Seq::empty()),
        },
        DataTypeView::Boolean(o) => match o {
            Option::Some(b) => Ok(seq![(f.name, WireVal::Bool(b))]),
            Option::None => Ok(Seq::empty()),
        },
        DataTypeView::Int32(o) => match o {
            Option::Some(n) => Ok(seq![(f.name, WireVal::Int(n as i64))]),
            Option::None => Ok(Seq::empty()),
        },
        DataTypeView::Int64(o) => match o {
            Option::Some(n) => Ok(
                seq![
                    (f.name, WireVal::Int(n)),
                    (f.name + type_suffix(), WireVal::Str(edm_int64())),
                ],
            ),
            Option::None => Ok(Seq::empty()),
        },
        DataTypeView::Uint32(o) => match o {
            Option::Some(n) => Ok(
                seq![
                    (f.name, WireVal::Int(n as i64)),
                    (f.name + type_suffix(), WireVal::Str(edm_int64())),
                ],
            ),
            Option::None => Ok(Seq::empty()),
        },
        DataTypeView::Uint64(o) => match o {
            Option::Some(n) => if n > i64::MAX {
                Err(ErrorView::NumericOverflow(f.name))
            } else {
                Ok(
                    seq![
                        (f.name, WireVal::Int(n as i64)),
                        (f.name + type_suffix(), WireVal::Str(edm_int64())),
                    ],
                )
            },
            Option::None => Ok(Seq::empty()),
        },
        DataTypeView::Float(o) => match o {
            Option::Some(t) => Ok(
                seq![
                    (f.name, WireVal::Float(t)),
                    (f.name + type_suffix(), WireVal::Str(edm_double())),
                ],
            ),
            Option::None => Ok(Seq::empty()),
        },
        DataTypeView::Double(o) => match o {
            Option::Some(t) => Ok(seq![(f.name, WireVal::Float(t))]),
            Option::None => Ok(Seq::empty()),
        },
        DataTypeView::Str(o) => match o {
            Option::Some(s) => Ok(seq![(f.name, WireVal::Str(s))]),
            Option::None => Ok(Seq::empty()),
        },
        DataTypeView::Date(o) => match o {
            Option::Some(s) => Ok(
                seq![
                    (f.name, WireVal::Str(s)),
                    (f.name + type_suffix(), WireVal::Str(edm_datetime())),
                ],
            ),
            Option::None => Ok(Seq::empty()),
        },
        DataTypeView::Time(o) => match o {
            Option::Some(s) => Ok(
                seq![
                    (f.name, WireVal::Str(s)),
                    (f.name + type_suffix(), WireVal::Str(edm_datetime())),
                ],
            ),
            Option::None => Ok(Seq::empty()),
        },
        DataTypeView::Timestamp(o) => match o {
            Option::Some(s) => Ok(
                seq![
                    (f.name, WireVal::Str(s)),
                    (f.name + type_suffix(), WireVal::Str(edm_datetime())),
                ],
            ),
            Option::None => Ok(Seq::empty()),
        },
    }
}

pub open spec fn marshal_fold(
    fields: Seq<FieldView>,
    k: int,
    acc: Seq<(Seq<char>, WireVal)>,
) -> Result<Seq<(Seq<char>, WireVal)>, ErrorView>
    decreases fields.len() - k when 0 <= k <= fields.len()
{
    if k >= fields.len() {
        Ok(acc)
    } else {
        match field_pairs(fields[k]) {
            Err(e) => Err(e),
            Ok(ps) => marshal_fold(fields, k + 1, acc + ps),
        }
    }
}

/// The wire JSON of an entity's field list: no pairs at all for an empty
/// list, else every field's pairs in order.
pub open spec fn entity_json_sp(fields: Seq<FieldView>) -> Result<
    Option<Seq<(Seq<char>, WireVal)>>,
    ErrorView,
> {
    if fields.len() == 0 {
        Ok(None)
    } else {
        match marshal_fold(fields, 0, Seq::empty()) {
            Err(e) => Err(e),
            Ok(ps) => Ok(Some(ps)),
        }
    }
}

/// An ordinary data-field name: not a system name, not a key name, and not
/// shaped like a type-tag name.
pub open spec fn clean_name(name: Seq<char>) -> bool {
    &&& !match_at(name, odata_prefix(), 0)
    &&& name != partition_key()
    &&& name != row_key()
    &&& name != timestamp_key()
    &&& !(name.len() >= 11 && match_at(name, type_suffix(), name.len() - 11))
}

/// Field `i` of the list is fit for an exact round trip: an ordinary name
/// and a present value of a variant the wire keeps apart.
pub open spec fn plain_field(fs: Seq<FieldView>, i: int) -> bool {
    clean_name(fs[i].name) && stable_value(fs[i].value)
}

/// A present value of a variant the wire keeps apart.
pub open spec fn stable_value(v: DataTypeView) -> bool {
    match v {
        DataTypeView::Boolean(o) => o is Some,
        DataTypeView::Int32(o) => o is Some,
        DataTypeView::Int64(o) => o is Some,
        DataTypeView::Double(o) => o is Some,
        DataTypeView::Str(o) => o is Some,
        DataTypeView::Timestamp(o) => o is Some,
        _ => false,
    }
}

/// The concatenated wire pairs of the fields from `j` on (meaningful where
/// every field marshals without error).
pub open spec fn pairs_concat(fs: Seq<FieldView>, j: int) -> Seq<(Seq<char>, WireVal)>
    decreases fs.len() - j when 0 <= j <= fs.len()
{
    if j >= fs.len() {
        Seq::empty()
    } else {
        field_pairs(fs[j])->Ok_0 + pairs_concat(fs, j + 1)
    }
}

/// The explicit tag pair value a field marshals with, if it has one.
pub open spec fn tag_of(f: FieldView) -> Option<WireVal> {
    let ps = field_pairs(f)->Ok_0;
    if ps.len() == 2 {
        Some(ps[1].1)
    } else {
        None
    }
}

/// A name followed by the tag suffix is shaped like a type-tag name.
proof fn lemma_tk_shape(name: Seq<char>)
    ensures
        (name + type_suffix()).len() == name.len() + 11,
        match_at(name + type_suffix(), type_suffix(), name.len() as int),
{
    let tk = name + type_suffix();
    assert(forall|j: int|
        0 <= j < type_suffix().len() ==> tk[name.len() + j] == type_suffix()[j]);
}

/// A name that is not shaped like a type-tag name differs from every
/// type-tag name.
proof fn lemma_clean_ne_tag_name(x: Seq<char>, y: Seq<char>)
    requires
        !(x.len() >= 11 && match_at(x, type_suffix(), x.len() - 11)),
    ensures
        x != y + type_suffix(),
{
    if x == y + type_suffix() {
        lemma_tk_shape(y);
    }
}

/// Appending the tag suffix is injective.
proof fn lemma_tag_name_injective(a: Seq<char>, b: Seq<char>)
    requires
        a + type_suffix() == b + type_suffix(),
    ensures
        a == b,
{
    assert((a + type_suffix()).len() == a.len() + 11);
    assert((b + type_suffix()).len() == b.len() + 11);
    assert(a.len() == b.len());
    assert forall|j: int| 0 <= j < a.len() implies a[j] == b[j] by {
        assert((a + type_suffix())[j] == a[j]);
        assert((b + type_suffix())[j] == b[j]);
    }
    assert(a =~= b);
}

/// A type-tag name is none of the reserved names the row scan treats
/// specially.
proof fn lemma_tag_name_not_reserved(name: Seq<char>)
    ensures
        name + type_suffix() != row_key(),
        name + type_suffix() != partition_key(),
        name + type_suffix() != timestamp_key(),
{
    let tk = name + type_suffix();
    assert(tk.len() == name.len() + 11);
    if tk == partition_key() {
        assert(tk.len() == 12);
        assert(tk[11] == type_suffix()[10]);
        assert(type_suffix()[10] == 'e');
        assert(partition_key()[11] == 'y');
    }
}

/// First match across a concatenation: the left side wins where it has the
/// name; otherwise the right side is searched.
proof fn lemma_lookup_append(a: Seq<(Seq<char>, WireVal)>, b: Seq<(Seq<char>, WireVal)>, n: Seq<char>)
    ensures
        lookup_sp(a + b, n) == match lookup_sp(a, n) {
            Some(v) => Some(v),
            None => lookup_sp(b, n),
        },
    decreases a.len(),
{
    if a.len() == 0 {
        assert(a + b =~= b);
    } else {
        assert((a + b)[0] == a[0]);
        assert((a + b).drop_first() =~= a.drop_first() + b);
        lemma_lookup_append(a.drop_first(), b, n);
    }
}

/// The tag under which a marshalled field's value converts back: the
/// explicit tag pair where the marshaller wrote one, else the tag inferred
/// from the wire value's shape.
pub open spec fn effective_tag(ps: Seq<(Seq<char>, WireVal)>) -> Seq<char> {
    if ps.len() == 2 {
        match ps[1].1 {
            WireVal::Str(t) => t,
            _ => infer_sp(ps[0].1),
        }
    } else {
        infer_sp(ps[0].1)
    }
}

/// Round trip of the marshaller and unmarshaller on one present field, for
/// the variants the wire keeps apart: Boolean, Int32, Int64, Double, String
/// and Timestamp. Marshalling the field and converting its wire value back
/// under the resolved tag reproduces the field's value exactly.
pub proof fn lemma_field_round_trip(f: FieldView)
    requires
        stable_value(f.value),
    ensures
        field_pairs(f) is Ok,
        ({
            let ps = field_pairs(f)->Ok_0;
            &&& ps.len() >= 1
            &&& ps[0].0 == f.name
            &&& convert_sp(f.name, ps[0].1, effective_tag(ps)) == Ok::<DataTypeView, ErrorView>(
                f.value,
            )
        }),
{
    assert(edm_string()[4] != edm_binary()[4]);
    assert(edm_string()[4] != edm_double()[4]);
    assert(edm_double()[4] != edm_binary()[4]);
    assert(edm_int32()[7] != edm_int64()[7]);
    assert(edm_int64()[4] != edm_binary()[4]);
    assert(edm_int64()[4] != edm_double()[4]);
    assert(edm_int64()[4] != edm_string()[4]);
}

/// Round trip of one present binary field, up to the encoding: the value
/// that comes back encodes to the same base64 text as the input bytes.
pub proof fn lemma_binary_round_trip(d: Seq<u8>, f: FieldView)
    requires
        f.value == DataTypeView::Binary(Some(d)),
    ensures
        field_pairs(f) is Ok,
        ({
            let ps = field_pairs(f)->Ok_0;
            &&& ps[0].0 == f.name
            &&& effective_tag(ps) == edm_binary()
            &&& match convert_sp(f.name, ps[0].1, effective_tag(ps)) {
                Ok(DataTypeView::Binary(Some(d2))) => base64_of(d2) == base64_of(d),
                _ => false,
            }
        }),
{
    let ps = field_pairs(f)->Ok_0;
    assert(ps[0].1 == WireVal::Str(base64_of(d)));
    assert(exists|b: Seq<u8>| base64_of(b) == base64_of(d));
}

/// The widened variants come back as their wire-level type, value preserved:
/// Uint32 and an in-range Uint64 as Int64, Float32 text as Double, Date and
/// Time text as Timestamp. (The wire has no unsigned, 32-bit float, date or
/// time type, so the starting variant is not recoverable.)
pub proof fn lemma_widened_round_trip(f: FieldView)
    requires
        match f.value {
            DataTypeView::Uint32(o) => o is Some,
            DataTypeView::Uint64(o) => o matches Some(n) && n <= i64::MAX,
            DataTypeView::Float(o) => o is Some,
            DataTypeView::Date(o) => o is Some,
            DataTypeView::Time(o) => o is Some,
            _ => false,
        },
    ensures
        field_pairs(f) is Ok,
        ({
            let ps = field_pairs(f)->Ok_0;
            let back = convert_sp(f.name, ps[0].1, effective_tag(ps));
            match f.value {
                DataTypeView::Uint32(o) => back == Ok::<DataTypeView, ErrorView>(
                    DataTypeView::Int64(Some(o->0 as i64)),
                ),
                DataTypeView::Uint64(o) => back == Ok::<DataTypeView, ErrorView>(
                    DataTypeView::Int64(Some(o->0 as i64)),
                ),
                DataTypeView::Float(o) => back == Ok::<DataTypeView, ErrorView>(
                    DataTypeView::Double(Some(o->0)),
                ),
                DataTypeView::Date(o) => back == Ok::<DataTypeView, ErrorView>(
                    DataTypeView::Timestamp(Some(o->0)),
                ),
                DataTypeView::Time(o) => back == Ok::<DataTypeView, ErrorView>(
                    DataTypeView::Timestamp(Some(o->0)),
                ),
                _ => false,
            }
        }),
{
    assert(edm_int64()[4] != edm_binary()[4]);
    assert(edm_int64()[7] != edm_int32()[7]);
    assert(edm_int64()[4] != edm_double()[4]);
    assert(edm_int64()[4] != edm_string()[4]);
    assert(edm_double()[4] != edm_binary()[4]);
}

/// Full round trip of one present field through the wire: decoding exactly
/// the pairs the marshaller writes for it yields a row holding that field
/// alone, for the variants the wire keeps apart. The field's name must be an
/// ordinary data name: not a system name, not a key name, and not shaped
/// like a type-tag name.
pub proof fn lemma_entity_round_trip(f: FieldView)
    requires
        stable_value(f.value),
        clean_name(f.name),
    ensures
        field_pairs(f) is Ok,
        row_sp(field_pairs(f)->Ok_0) == Ok::<RowView, ErrorView>(
            RowView { index: Seq::empty(), fields: seq![f] },
        ),
{
    lemma_field_round_trip(f);
    let ps = field_pairs(f)->Ok_0;
    let tk = f.name + type_suffix();
    assert(tk.len() == f.name.len() + 11);
    assert(f.name != tk);
    // The tag pair's name is shaped like a type-tag name.
    assert(match_at(tk, type_suffix(), tk.len() - 11)) by {
        assert(forall|j: int|
            0 <= j < type_suffix().len() ==> tk[tk.len() - 11 + j] == type_suffix()[j]);
    }
    // The tag pair's name is no system or key name: it is longer than the
    // value pair's checks require, and its tail is the tag suffix.
    assert(ps[0].0 == f.name);
    if ps.len() == 2 {
        assert(ps.drop_first()[0] == ps[1]);
        assert(ps.drop_first().len() == 1);
        assert(lookup_sp(ps.drop_first(), tk) == Some(ps[1].1));
        assert(lookup_sp(ps, tk) == Some(ps[1].1));
    } else {
        assert(ps.len() == 1);
        assert(ps.drop_first().len() == 0);
        assert(lookup_sp(ps.drop_first(), tk) is None);
        assert(lookup_sp(ps, tk) is None);
    }
    if ps.len() == 2 {
        // Step past the tag pair: its name carries the tag suffix, so the
        // scan skips it.
        assert(ps[1].0 == tk);
        assert(!match_at(tk, odata_prefix(), 0)) by {
            if match_at(tk, odata_prefix(), 0) {
                assert(tk[0] == f.name[0] || f.name.len() == 0);
                if f.name.len() == 0 {
                    assert(tk[0] == type_suffix()[0]);
                    assert(tk[0] == 'o' && tk[0] == '@');
                } else {
                    assert(forall|j: int| 0 <= j < f.name.len() ==> tk[j] == f.name[j]);
                    if f.name.len() >= odata_prefix().len() {
                        assert(match_at(f.name, odata_prefix(), 0));
                    } else {
                        // The prefix would reach into the suffix: every name
                        // position matches, and position f.name.len() of the
                        // prefix would have to be the suffix's first
                        // character.
                        let m = f.name.len() as int;
                        assert(tk[m] == odata_prefix()[m]);
                        assert(tk[m] == type_suffix()[0]);
                        assert(type_suffix()[0] == '@');
                        assert(odata_prefix()[0] == 'o' && odata_prefix()[1] == 'd'
                            && odata_prefix()[2] == 'a' && odata_prefix()[3] == 't'
                            && odata_prefix()[4] == 'a' && odata_prefix()[5] == '.');
                    }
                }
            }
        }
        assert(tk != row_key() && tk != partition_key() && tk != timestamp_key()) by {
            assert(tk[tk.len() - 1] == type_suffix()[10]);
            assert(type_suffix()[10] == 'e');
            if tk == row_key() {
                assert(tk.len() == 6 && tk.len() >= 11);
            }
            if tk == partition_key() {
                assert(tk.len() == 12);
                assert(tk[11] == partition_key()[11]);
                assert(partition_key()[11] == 'y');
            }
            if tk == timestamp_key() {
                assert(tk.len() == 9 && tk.len() >= 11);
            }
        }
        assert(row_fold(ps, 1, Seq::empty(), seq![f]) == row_fold(ps, 2, Seq::empty(), seq![f]));
    }
}

/// The row scan across one clean, stable field's pairs at position `k`:
/// the value pair converts back to the field, a tag pair is skipped, and
/// the scan continues past them, provided the whole list resolves the
/// field's tag to its own.
proof fn lemma_row_fold_field(
    all: Seq<(Seq<char>, WireVal)>,
    k: int,
    f: FieldView,
    idx: Seq<char>,
    acc: Seq<FieldView>,
)
    requires
        clean_name(f.name),
        stable_value(f.value),
        field_pairs(f) is Ok,
        0 <= k,
        k + field_pairs(f)->Ok_0.len() <= all.len(),
        all.subrange(k, k + field_pairs(f)->Ok_0.len() as int) == field_pairs(f)->Ok_0,
        lookup_sp(all, f.name + type_suffix()) == tag_of(f),
    ensures
        row_fold(all, k, idx, acc) == row_fold(
            all,
            k + field_pairs(f)->Ok_0.len() as int,
            idx,
            acc.push(f),
        ),
{
    lemma_field_round_trip(f);
    let ps = field_pairs(f)->Ok_0;
    let sub = all.subrange(k, k + ps.len() as int);
    assert(all[k] == sub[0]);
    assert(all[k] == ps[0]);
    assert(all[k].0 == f.name);
    assert(FieldView { name: f.name, value: f.value } == f);
    if ps.len() == 2 {
        assert(all[k + 1] == sub[1]);
        assert(all[k + 1] == ps[1]);
        assert(tag_of(f) == Some(ps[1].1));
        assert(row_fold(all, k, idx, acc) == row_fold(all, k + 1, idx, acc.push(f)));
        let tk = f.name + type_suffix();
        assert(all[k + 1].0 == tk);
        lemma_tk_shape(f.name);
        lemma_tag_name_not_reserved(f.name);
        assert(tk.len() >= 11 && match_at(tk, type_suffix(), tk.len() - 11));
        assert(row_fold(all, k + 1, idx, acc.push(f)) == row_fold(all, k + 2, idx, acc.push(f)));
    } else {
        assert(tag_of(f) is None);
        assert(row_fold(all, k, idx, acc) == row_fold(all, k + 1, idx, acc.push(f)));
    }
}

/// A name that is no field's value-pair name and no field's tag-pair name is
/// absent from the concatenated pairs.
proof fn lemma_lookup_concat_none(fs: Seq<FieldView>, j: int, n: Seq<char>)
    requires
        0 <= j <= fs.len(),
        forall|i: int| 0 <= i < fs.len() ==> #[trigger] plain_field(fs, i),
        forall|i: int| j <= i < fs.len() ==> #[trigger] fs[i].name != n,
        forall|i: int| j <= i < fs.len() ==> #[trigger] fs[i].name + type_suffix() != n,
    ensures
        lookup_sp(pairs_concat(fs, j), n) is None,
    decreases fs.len() - j,
{
    if j < fs.len() {
        assert(plain_field(fs, j));
        assert(fs[j].name != n);
        assert(fs[j].name + type_suffix() != n);
        lemma_field_round_trip(fs[j]);
        let ps = field_pairs(fs[j])->Ok_0;
        assert(ps[0].0 == fs[j].name);
        if ps.len() == 2 {
            assert(ps[1].0 == fs[j].name + type_suffix());
            assert(ps.drop_first()[0] == ps[1]);
            assert(ps.drop_first().drop_first().len() == 0);
            assert(lookup_sp(ps.drop_first().drop_first(), n) is None);
            assert(lookup_sp(ps.drop_first(), n) is None);
            assert(lookup_sp(ps, n) is None);
        } else {
            assert(ps.drop_first().len() == 0);
            assert(lookup_sp(ps.drop_first(), n) is None);
            assert(lookup_sp(ps, n) is None);
        }
        lemma_lookup_append(ps, pairs_concat(fs, j + 1), n);
        lemma_lookup_concat_none(fs, j + 1, n);
    }
}

/// Among distinctly named clean fields, a field's tag name looks up to its
/// own tag pair, or to nothing where it marshals without one.
proof fn lemma_lookup_concat(fs: Seq<FieldView>, j: int, i: int)
    requires
        0 <= j <= i < fs.len(),
        forall|m: int| 0 <= m < fs.len() ==> #[trigger] plain_field(fs, m),
        forall|m: int, l: int|
            0 <= m < l < fs.len() ==> #[trigger] fs[m].name != #[trigger] fs[l].name,
    ensures
        lookup_sp(pairs_concat(fs, j), fs[i].name + type_suffix()) == tag_of(fs[i]),
    decreases i - j,
{
    let n = fs[i].name + type_suffix();
    assert(plain_field(fs, j));
    assert(plain_field(fs, i));
    lemma_field_round_trip(fs[j]);
    let ps = field_pairs(fs[j])->Ok_0;
    assert(ps[0].0 == fs[j].name);
    lemma_clean_ne_tag_name(fs[j].name, fs[i].name);
    assert(fs[j].name != n);
    if j == i {
        if ps.len() == 2 {
            assert(ps[1].0 == n);
            assert(ps.drop_first()[0] == ps[1]);
            assert(lookup_sp(ps.drop_first(), n) == Some(ps[1].1));
            assert(lookup_sp(ps, n) == Some(ps[1].1));
            lemma_lookup_append(ps, pairs_concat(fs, j + 1), n);
        } else {
            assert(ps.drop_first().len() == 0);
            assert(lookup_sp(ps, n) is None);
            lemma_lookup_append(ps, pairs_concat(fs, j + 1), n);
            assert forall|m: int| j + 1 <= m < fs.len() implies #[trigger] fs[m].name + type_suffix()
                != n by {
                assert(plain_field(fs, m));
                if fs[m].name + type_suffix() == n {
                    lemma_tag_name_injective(fs[m].name, fs[i].name);
                    assert(fs[i].name != fs[m].name);
                }
            }
            assert forall|m: int| j + 1 <= m < fs.len() implies #[trigger] fs[m].name != n by {
                assert(plain_field(fs, m));
                lemma_clean_ne_tag_name(fs[m].name, fs[i].name);
            }
            lemma_lookup_concat_none(fs, j + 1, n);
        }
    } else {
        if ps.len() == 2 {
            assert(ps[1].0 == fs[j].name + type_suffix());
            if fs[j].name + type_suffix() == n {
                lemma_tag_name_injective(fs[j].name, fs[i].name);
                assert(fs[j].name != fs[i].name);
            }
            assert(ps[1].0 != n);
            assert(ps.drop_first()[0] == ps[1]);
            assert(ps.drop_first().drop_first().len() == 0);
            assert(lookup_sp(ps.drop_first().drop_first(), n) is None);
            assert(lookup_sp(ps.drop_first(), n) is None);
            assert(lookup_sp(ps, n) is None);
        } else {
            assert(ps.drop_first().len() == 0);
            assert(lookup_sp(ps.drop_first(), n) is None);
            assert(lookup_sp(ps, n) is None);
        }
        lemma_lookup_append(ps, pairs_concat(fs, j + 1), n);
        lemma_lookup_concat(fs, j + 1, i);
    }
}

/// The row scan across the concatenated pairs of the fields from `j` on,
/// running to the end of the list: every remaining field comes back, in
/// order, provided the whole list resolves every field's tag to its own.
proof fn lemma_rows_steps(
    all: Seq<(Seq<char>, WireVal)>,
    fs: Seq<FieldView>,
    j: int,
    k: int,
    idx: Seq<char>,
    acc: Seq<FieldView>,
)
    requires
        0 <= j <= fs.len(),
        0 <= k <= all.len(),
        forall|i: int| 0 <= i < fs.len() ==> #[trigger] plain_field(fs, i),
        all.subrange(k, all.len() as int) == pairs_concat(fs, j),
        forall|i: int|
            0 <= i < fs.len() ==> lookup_sp(all, #[trigger] fs[i].name + type_suffix()) == tag_of(
                fs[i],
            ),
    ensures
        row_fold(all, k, idx, acc) == Ok::<RowView, ErrorView>(
            RowView { index: idx, fields: acc + fs.skip(j) },
        ),
    decreases fs.len() - j,
{
    let suffix_pairs = all.subrange(k, all.len() as int);
    if j >= fs.len() {
        assert(suffix_pairs.len() == 0);
        assert(k == all.len());
        assert(acc + fs.skip(j) =~= acc);
    } else {
        assert(plain_field(fs, j));
        lemma_field_round_trip(fs[j]);
        let ps = field_pairs(fs[j])->Ok_0;
        let rest = pairs_concat(fs, j + 1);
        assert(suffix_pairs == ps + rest);
        let pl = ps.len() as int;
        assert(suffix_pairs.len() == pl + rest.len());
        assert(all.subrange(k, k + pl) =~= ps) by {
            assert forall|m: int| 0 <= m < pl implies all.subrange(k, k + pl)[m] == ps[m] by {
                assert(all.subrange(k, k + pl)[m] == all[k + m]);
                assert(suffix_pairs[m] == all[k + m]);
                assert(suffix_pairs[m] == ps[m]);
            }
        }
        assert(all.subrange(k + pl, all.len() as int) =~= rest) by {
            assert forall|m: int| 0 <= m < rest.len() implies all.subrange(
                k + pl,
                all.len() as int,
            )[m] == rest[m] by {
                assert(all.subrange(k + pl, all.len() as int)[m] == all[k + pl + m]);
                assert(suffix_pairs[pl + m] == all[k + pl + m]);
                assert(suffix_pairs[pl + m] == rest[m]);
            }
        }
        lemma_row_fold_field(all, k, fs[j], idx, acc);
        lemma_rows_steps(all, fs, j + 1, k + pl, idx, acc.push(fs[j]));
        assert(acc.push(fs[j]) + fs.skip(j + 1) =~= acc + fs.skip(j));
    }
}

/// Whole-entity round trip, the general law behind the per-field lemmas:
/// a wire entity of a string RowKey pair followed by the marshalled pairs of
/// distinctly named ordinary fields, each holding a present value of a
/// variant the wire keeps apart, decodes to the row with that index and
/// exactly those fields, in order.
pub proof fn lemma_row_round_trip(fs: Seq<FieldView>, rk: Seq<char>)
    requires
        forall|i: int| 0 <= i < fs.len() ==> #[trigger] plain_field(fs, i),
        forall|m: int, l: int|
            0 <= m < l < fs.len() ==> #[trigger] fs[m].name != #[trigger] fs[l].name,
    ensures
        row_sp(seq![(row_key(), WireVal::Str(rk))] + pairs_concat(fs, 0)) == Ok::<
            RowView,
            ErrorView,
        >(RowView { index: rk, fields: fs }),
{
    let head = seq![(row_key(), WireVal::Str(rk))];
    let all = head + pairs_concat(fs, 0);
    assert(all[0] == (row_key(), WireVal::Str(rk)));
    assert(!match_at(row_key(), odata_prefix(), 0)) by {
        if match_at(row_key(), odata_prefix(), 0) {
            assert(row_key()[0] == odata_prefix()[0]);
        }
    }
    assert(row_fold(all, 0, Seq::empty(), Seq::empty()) == row_fold(all, 1, rk, Seq::empty()));
    assert forall|i: int| 0 <= i < fs.len() implies lookup_sp(
        all,
        #[trigger] fs[i].name + type_suffix(),
    ) == tag_of(fs[i]) by {
        let n = fs[i].name + type_suffix();
        lemma_tag_name_not_reserved(fs[i].name);
        assert(head[0].0 != n);
        assert(head.drop_first().len() == 0);
        assert(lookup_sp(head.drop_first(), n) is None);
        assert(lookup_sp(head, n) is None);
        lemma_lookup_append(head, pairs_concat(fs, 0), n);
        lemma_lookup_concat(fs, 0, i);
    }
    assert(all.subrange(1, all.len() as int) =~= pairs_concat(fs, 0)) by {
        assert forall|m: int| 0 <= m < pairs_concat(fs, 0).len() implies all.subrange(
            1,
            all.len() as int,
        )[m] == pairs_concat(fs, 0)[m] by {
            assert(all.subrange(1, all.len() as int)[m] == all[1 + m]);
            assert(all[1 + m] == pairs_concat(fs, 0)[m]);
        }
    }
    lemma_rows_steps(all, fs, 0, 1, rk, Seq::empty());
    assert(Seq::<FieldView>::empty() + fs.skip(0) =~= fs);
}

/// Marshalling plain fields is errorless and yields exactly the
/// concatenation of their pairs.
proof fn lemma_marshal_concat(fs: Seq<FieldView>, j: int, acc: Seq<(Seq<char>, WireVal)>)
    requires
        0 <= j <= fs.len(),
        forall|i: int| 0 <= i < fs.len() ==> #[trigger] plain_field(fs, i),
    ensures
        marshal_fold(fs, j, acc) == Ok::<Seq<(Seq<char>, WireVal)>, ErrorView>(
            acc + pairs_concat(fs, j),
        ),
    decreases fs.len() - j,
{
    if j >= fs.len() {
        assert(acc + pairs_concat(fs, j) =~= acc);
    } else {
        assert(plain_field(fs, j));
        lemma_field_round_trip(fs[j]);
        let ps = field_pairs(fs[j])->Ok_0;
        lemma_marshal_concat(fs, j + 1, acc + ps);
        assert((acc + ps) + pairs_concat(fs, j + 1) =~= acc + pairs_concat(fs, j));
    }
}

/// The envelope-level round trip, over the contracts of `entity_to_json`
/// and `parse` themselves: a non-empty entity of distinctly named ordinary
/// fields with present, wire-distinct values marshals without error, and a
/// response holding that one entity with a string RowKey pair in front
/// decodes to the single row with that index and exactly those fields.
pub proof fn lemma_entity_json_round_trip(fs: Seq<FieldView>, rk: Seq<char>)
    requires
        fs.len() > 0,
        forall|i: int| 0 <= i < fs.len() ==> #[trigger] plain_field(fs, i),
        forall|m: int, l: int|
            0 <= m < l < fs.len() ==> #[trigger] fs[m].name != #[trigger] fs[l].name,
    ensures
        entity_json_sp(fs) == Ok::<Option<Seq<(Seq<char>, WireVal)>>, ErrorView>(
            Some(pairs_concat(fs, 0)),
        ),
        rows_fold(
            seq![seq![(row_key(), WireVal::Str(rk))] + pairs_concat(fs, 0)],
            0,
            Seq::empty(),
        ) == Ok::<Seq<RowView>, ErrorView>(seq![RowView { index: rk, fields: fs }]),
{
    lemma_marshal_concat(fs, 0, Seq::empty());
    assert(Seq::<(Seq<char>, WireVal)>::empty() + pairs_concat(fs, 0) =~= pairs_concat(fs, 0));
    lemma_row_round_trip(fs, rk);
    let es = seq![seq![(row_key(), WireVal::Str(rk))] + pairs_concat(fs, 0)];
    assert(es[0] == seq![(row_key(), WireVal::Str(rk))] + pairs_concat(fs, 0));
    assert(rows_fold(es, 1, seq![RowView { index: rk, fields: fs }]) == Ok::<
        Seq<RowView>,
        ErrorView,
    >(seq![RowView { index: rk, fields: fs }]));
    assert(Seq::<RowView>::empty().push(RowView { index: rk, fields: fs }) =~= seq![
        RowView { index: rk, fields: fs },
    ]);
}

fn type_key_of(name: &String) -> (r: String)
    ensures
        r@ == name@ + type_suffix(),
{
    let name_v = chars_of(name.as_str());
    let suffix_v = vec!['@', 'o', 'd', 'a', 't', 'a', '.', 't', 'y', 'p', 'e'];
    assert(suffix_v@ =~= type_suffix());
    let mut out = chars::subrange_vec(&name_v, 0, name_v.len());
    assert(out@ =~= name@);
    chars::push_all(&mut out, &suffix_v);
    string_of(&out)
}

impl ExecPhrase {
    /// Encode the entity fields as wire JSON pairs; no JSON at all when the
    /// entity is empty. An absent value contributes nothing — the wire
    /// format has no null — and a type tag stands beside every value whose
    /// type the JSON shape cannot convey.
    pub fn entity_to_json(&self) -> (r: Result<Option<Vec<(String, JsonValue)>>, Error>)
        ensures
            match r {
                Ok(o) => entity_json_sp(self@.entity) == Ok::<
                    Option<Seq<(Seq<char>, WireVal)>>,
                    ErrorView,
                >(
                    match o {
                        Some(v) => Some(pair_views(v@)),
                        None => None,
                    },
                ),
                Err(e) => entity_json_sp(self@.entity) == Err::<
                    Option<Seq<(Seq<char>, WireVal)>>,
                    ErrorView,
                >(e@),
            },
    {
        let ghost fvs = field_views(self.entity@);
        if self.entity.len() == 0 {
            return Ok(None);
        }
        let mut out: Vec<(String, JsonValue)> = Vec::new();
        let mut k: usize = 0;
        assert(pair_views(out@) =~= Seq::<(Seq<char>, WireVal)>::empty());
        while k < self.entity.len()
            invariant
                0 <= k <= self.entity@.len(),
                fvs == field_views(self.entity@),
                fvs.len() == self.entity@.len(),
                marshal_fold(fvs, 0, Seq::empty()) == marshal_fold(
                    fvs,
                    k as int,
                    pair_views(out@),
                ),
            decreases self.entity.len() - k,
        {
            proof {
                assert(fvs[k as int] == self.entity@[k as int]@);
            }
            let f = &self.entity[k];
            let ghost acc0 = pair_views(out@);
            match &f.value {
                DataType::Binary(o) => match o {
                    Option::Some(d) => {
                        let encoded = b64_encode(d);
                        let t = vec!['E', 'd', 'm', '.', 'B', 'i', 'n', 'a', 'r', 'y'];
                        assert(t@ =~= edm_binary());
                        out.push((f.name.clone(), JsonValue::Str(encoded)));
                        out.push((type_key_of(&f.name), JsonValue::Str(string_of(&t))));
                        proof {
                            assert(pair_views(out@) =~= acc0 + field_pairs(
                                fvs[k as int],
                            )->Ok_0);
                        }
                    },
                    Option::None => {
                        assert(pair_views(out@) =~= acc0 + Seq::<(Seq<char>, WireVal)>::empty());
                    },
                },
                DataType::Boolean(o) => match o {
                    Option::Some(b) => {
                        out.push((f.name.clone(), JsonValue::Bool(*b)));
                        proof {
                            assert(pair_views(out@) =~= acc0 + field_pairs(
                                fvs[k as int],
                            )->Ok_0);
                        }
                    },
                    Option::None => {
                        assert(pair_views(out@) =~= acc0 + Seq::<(Seq<char>, WireVal)>::empty());
                    },
                },
                DataType::Int32(o) => match o {
                    Option::Some(n) => {
                        out.push((f.name.clone(), JsonValue::Int(*n as i64)));
                        proof {
                            assert(pair_views(out@) =~= acc0 + field_pairs(
                                fvs[k as int],
                            )->Ok_0);
                        }
                    },
                    Option::None => {
                        assert(pair_views(out@) =~= acc0 + Seq::<(Seq<char>, WireVal)>::empty());
                    },
                },
                DataType::Int64(o) => match o {
                    Option::Some(n) => {
                        let t = vec!['E', 'd', 'm', '.', 'I', 'n', 't', '6', '4'];
                        assert(t@ =~= edm_int64());
                        out.push((f.name.clone(), JsonValue::Int(*n)));
                        out.push((type_key_of(&f.name), JsonValue::Str(string_of(&t))));
                        proof {
                            assert(pair_views(out@) =~= acc0 + field_pairs(
                                fvs[k as int],
                            )->Ok_0);
                        }
                    },
                    Option::None => {
                        assert(pair_views(out@) =~= acc0 + Seq::<(Seq<char>, WireVal)>::empty());
                    },
                },
                DataType::Uint32(o) => match o {
                    Option::Some(n) => {
                        let t = vec!['E', 'd', 'm', '.', 'I', 'n', 't', '6', '4'];
                        assert(t@ =~= edm_int64());
                        out.push((f.name.clone(), JsonValue::Int(*n as i64)));
                        out.push((type_key_of(&f.name), JsonValue::Str(string_of(&t))));
                        proof {
                            assert(pair_views(out@) =~= acc0 + field_pairs(
                                fvs[k as int],
                            )->Ok_0);
                        }
                    },
                    Option::None => {
                        assert(pair_views(out@) =~= acc0 + Seq::<(Seq<char>, WireVal)>::empty());
                    },
                },
                DataType::Uint64(o) => match o {
                    Option::Some(n) => {
                        if *n > i64::MAX as u64 {
                            return Err(Error::NumericOverflow(f.name.clone()));
                        }
                        let t = vec!['E', 'd', 'm', '.', 'I', 'n', 't', '6', '4'];
                        assert(t@ =~= edm_int64());
                        out.push((f.name.clone(), JsonValue::Int(*n as i64)));
                        out.push((type_key_of(&f.name), JsonValue::Str(string_of(&t))));
                        proof {
                            assert(pair_views(out@) =~= acc0 + field_pairs(
                                fvs[k as int],
                            )->Ok_0);
                        }
                    },
                    Option::None => {
                        assert(pair_views(out@) =~= acc0 + Seq::<(Seq<char>, WireVal)>::empty());
                    },
                },
                DataType::Float(o) => match o {
                    Option::Some(t) => {
                        let tag = vec!['E', 'd', 'm', '.', 'D', 'o', 'u', 'b', 'l', 'e'];
                        assert(tag@ =~= edm_double());
                        out.push((f.name.clone(), JsonValue::Float(t.clone())));
                        out.push((type_key_of(&f.name), JsonValue::Str(string_of(&tag))));
                        proof {
                            assert(pair_views(out@) =~= acc0 + field_pairs(
                                fvs[k as int],
                            )->Ok_0);
                        }
                    },
                    Option::None => {
                        assert(pair_views(out@) =~= acc0 + Seq::<(Seq<char>, WireVal)>::empty());
                    },
                },
                DataType::Double(o) => match o {
                    Option::Some(t) => {
                        out.push((f.name.clone(), JsonValue::Float(t.clone())));
                        proof {
                            assert(pair_views(out@) =~= acc0 + field_pairs(
                                fvs[k as int],
                            )->Ok_0);
                        }
                    },
                    Option::None => {
                        assert(pair_views(out@) =~= acc0 + Seq::<(Seq<char>, WireVal)>::empty());
                    },
                },
                DataType::Str(o) => match o {
                    Option::Some(s) => {
                        out.push((f.name.clone(), JsonValue::Str(s.clone())));
                        proof {
                            assert(pair_views(out@) =~= acc0 + field_pairs(
                                fvs[k as int],
                            )->Ok_0);
                        }
                    },
                    Option::None => {
                        assert(pair_views(out@) =~= acc0 + Seq::<(Seq<char>, WireVal)>::empty());
                    },
                },
                DataType::Date(o) => match o {
                    Option::Some(s) => {
                        let t = vec!['E', 'd', 'm', '.', 'D', 'a', 't', 'e', 'T', 'i', 'm', 'e'];
                        assert(t@ =~= edm_datetime());
                        out.push((f.name.clone(), JsonValue::Str(s.clone())));
                        out.push((type_key_of(&f.name), JsonValue::Str(string_of(&t))));
                        proof {
                            assert(pair_views(out@) =~= acc0 + field_pairs(
                                fvs[k as int],
                            )->Ok_0);
                        }
                    },
                    Option::None => {
                        assert(pair_views(out@) =~= acc0 + Seq::<(Seq<char>, WireVal)>::empty());
                    },
                },
                DataType::Time(o) => match o {
                    Option::Some(s) => {
                        let t = vec!['E', 'd', 'm', '.', 'D', 'a', 't', 'e', 'T', 'i', 'm', 'e'];
                        assert(t@ =~= edm_datetime());
                        out.push((f.name.clone(), JsonValue::Str(s.clone())));
                        out.push((type_key_of(&f.name), JsonValue::Str(string_of(&t))));
                        proof {
                            assert(pair_views(out@) =~= acc0 + field_pairs(
                                fvs[k as int],
                            )->Ok_0);
                        }
                    },
                    Option::None => {
                        assert(pair_views(out@) =~= acc0 + Seq::<(Seq<char>, WireVal)>::empty());
                    },
                },
                DataType::Timestamp(o) => match o {
                    Option::Some(s) => {
                        let t = vec!['E', 'd', 'm', '.', 'D', 'a', 't', 'e', 'T', 'i', 'm', 'e'];
                        assert(t@ =~= edm_datetime());
                        out.push((f.name.clone(), JsonValue::Str(s.clone())));
                        out.push((type_key_of(&f.name), JsonValue::Str(string_of(&t))));
                        proof {
                            assert(pair_views(out@) =~= acc0 + field_pairs(
                                fvs[k as int],
                            )->Ok_0);
                        }
                    },
                    Option::None => {
                        assert(pair_views(out@) =~= acc0 + Seq::<(Seq<char>, WireVal)>::empty());
                    },
                },
            }
            k += 1;
        }
        Ok(Some(out))
    }
}

} // verus!
