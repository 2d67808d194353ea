//! The tagged value model shared by statement parameters and entity fields.

use vstd::prelude::*;

verus! {

/// One typed value; every variant is independently nullable.
///
/// Floating-point values are carried as their decimal text: the dialect
/// renders them textually into query literals and the wire format carries
/// them as JSON number text, so the text is what the logic reads.
#[derive(Debug, Clone, PartialEq)]
pub enum DataType {
    Int32(Option<i32>),
    Int64(Option<i64>),
    Uint32(Option<u32>),
    Uint64(Option<u64>),
    Float(Option<String>),
    Double(Option<String>),
    Str(Option<String>),
    Boolean(Option<bool>),
    Date(Option<String>),
    Time(Option<String>),
    Timestamp(Option<String>),
    Binary(Option<Vec<u8>>),
}

/// A named entity field.
#[derive(Debug, Clone, PartialEq)]
pub struct Field {
    pub name: String,
    pub value: DataType,
}

/// One row of a query result; `index` is the store's row identifier.
#[derive(Debug, Clone, PartialEq)]
pub struct Row {
    pub index: String,
    pub fields: Vec<Field>,
}

/// The mathematical view of a typed value: text as character sequences,
/// binary data as byte sequences.
pub enum DataTypeView {
    Int32(Option<i32>),
    Int64(Option<i64>),
    Uint32(Option<u32>),
    Uint64(Option<u64>),
    Float(Option<Seq<char>>),
    Double(Option<Seq<char>>),
    Str(Option<Seq<char>>),
    Boolean(Option<bool>),
    Date(Option<Seq<char>>),
    Time(Option<Seq<char>>),
    Timestamp(Option<Seq<char>>),
    Binary(Option<Seq<u8>>),
}

pub open spec fn opt_str_view(o: Option<String>) -> Option<Seq<char>> {
    match o {
        Option::Some(s) => Option::Some(s@),
        Option::None => Option::None,
    }
}

impl View for DataType {
    type V = DataTypeView;

    open spec fn view(&self) -> DataTypeView {
        match self {
            DataType::Int32(o) => DataTypeView::Int32(*o),
            DataType::Int64(o) => DataTypeView::Int64(*o),
            DataType::Uint32(o) => DataTypeView::Uint32(*o),
            DataType::Uint64(o) => DataTypeView::Uint64(*o),
            DataType::Float(o) => DataTypeView::Float(opt_str_view(*o)),
            DataType::Double(o) => DataTypeView::Double(opt_str_view(*o)),
            DataType::Str(o) => DataTypeView::Str(opt_str_view(*o)),
            DataType::Boolean(o) => DataTypeView::Boolean(*o),
            DataType::Date(o) => DataTypeView::Date(opt_str_view(*o)),
            DataType::Time(o) => DataTypeView::Time(opt_str_view(*o)),
            DataType::Timestamp(o) => DataTypeView::Timestamp(opt_str_view(*o)),
            DataType::Binary(o) => DataTypeView::Binary(
                match o {
                    Option::Some(b) => Option::Some(b@),
                    Option::None => Option::None,
                },
            ),
        }
    }
}

/// The view of a named field.
pub struct FieldView {
    pub name: Seq<char>,
    pub value: DataTypeView,
}

impl View for Field {
    type V = FieldView;

    open spec fn view(&self) -> FieldView {
        FieldView { name: self.name@, value: self.value@ }
    }
}

pub open spec fn field_views(fs: Seq<Field>) -> Seq<FieldView> {
    fs.map_values(|f: Field| f@)
}

/// The view of a row.
pub struct RowView {
    pub index: Seq<char>,
    pub fields: Seq<FieldView>,
}

impl View for Row {
    type V = RowView;

    open spec fn view(&self) -> RowView {
        RowView { index: self.index@, fields: field_views(self.fields@) }
    }
}

fn dup_bytes(b: &Vec<u8>) -> (r: Vec<u8>)
    ensures
        r@ == b@,
{
    let mut r: Vec<u8> = Vec::new();
    let mut i: usize = 0;
    while i < b.len()
        invariant
            0 <= i <= b@.len(),
            r@ == b@.take(i as int),
        decreases b.len() - i,
    {
        r.push(b[i]);
        i += 1;
        assert(r@ =~= b@.take(i as int));
    }
    assert(r@ =~= b@);
    r
}

fn dup_opt_string(o: &Option<String>) -> (r: Option<String>)
    ensures
        opt_str_view(r) == opt_str_view(*o),
{
    match o {
        Option::Some(s) => Option::Some(s.clone()),
        Option::None => Option::None,
    }
}

impl DataType {
    /// A copy with the same view.
    pub fn dup(&self) -> (r: DataType)
        ensures
            r@ == self@,
    {
        match self {
            DataType::Int32(o) => DataType::Int32(*o),
            DataType::Int64(o) => DataType::Int64(*o),
            DataType::Uint32(o) => DataType::Uint32(*o),
            DataType::Uint64(o) => DataType::Uint64(*o),
            DataType::Float(o) => DataType::Float(dup_opt_string(o)),
            DataType::Double(o) => DataType::Double(dup_opt_string(o)),
            DataType::Str(o) => DataType::Str(dup_opt_string(o)),
            DataType::Boolean(o) => DataType::Boolean(*o),
            DataType::Date(o) => DataType::Date(dup_opt_string(o)),
            DataType::Time(o) => DataType::Time(dup_opt_string(o)),
            DataType::Timestamp(o) => DataType::Timestamp(dup_opt_string(o)),
            DataType::Binary(o) => DataType::Binary(
                match o {
                    Option::Some(b) => Option::Some(dup_bytes(b)),
                    Option::None => Option::None,
                },
            ),
        }
    }
}

} // verus!
