//! A plain model of the store's wire JSON. A wire entity is a flat object:
//! a list of name/value pairs whose values are scalars. Numbers keep the
//! three distinctions the wire makes: a signed integer, an unsigned integer
//! above the signed range, and a floating-point number (carried as its
//! decimal text). `Other` stands for a non-scalar value (an array or a
//! nested object), which the unmarshaller treats as it treats any value of
//! an unexpected shape.

use vstd::prelude::*;

verus! {

#[derive(Debug, PartialEq)]
pub enum JsonValue {
    Null,
    Bool(bool),
    /// A JSON integer in the signed 64-bit range.
    Int(i64),
    /// A JSON integer above `i64::MAX`.
    Uint(u64),
    /// A JSON number that is not an integer, as its decimal text.
    Float(String),
    Str(String),
    /// A non-scalar value: an array or a nested object.
    Other,
}

/// The mathematical view of a wire value.
pub enum WireVal {
    Null,
    Bool(bool),
    Int(i64),
    Uint(u64),
    Float(Seq<char>),
    Str(Seq<char>),
    Other,
}

impl View for JsonValue {
    type V = WireVal;

    open spec fn view(&self) -> WireVal {
        match self {
            JsonValue::Null => WireVal::Null,
            JsonValue::Bool(b) => WireVal::Bool(*b),
            JsonValue::Int(n) => WireVal::Int(*n),
            JsonValue::Uint(n) => WireVal::Uint(*n),
            JsonValue::Float(t) => WireVal::Float(t@),
            JsonValue::Str(s) => WireVal::Str(s@),
            JsonValue::Other => WireVal::Other,
        }
    }
}

/// The views of an entity's pairs.
pub open spec fn pair_views(ps: Seq<(String, JsonValue)>) -> Seq<(Seq<char>, WireVal)> {
    ps.map_values(|p: (String, JsonValue)| (p.0@, p.1@))
}

/// What `as_i64` yields on a wire number.
pub open spec fn as_i64_sp(v: WireVal) -> Option<i64> {
    match v {
        WireVal::Int(n) => Some(n),
        WireVal::Uint(u) => if u <= i64::MAX {
            Some(u as i64)
        } else {
            None
        },
        _ => None,
    }
}

/// First pair named `name`, if any (a wire object carries each name once).
pub open spec fn lookup_sp(pairs: Seq<(Seq<char>, WireVal)>, name: Seq<char>) -> Option<WireVal>
    decreases pairs.len(),
{
    if pairs.len() == 0 {
        None
    } else if pairs[0].0 == name {
        Some(pairs[0].1)
    } else {
        lookup_sp(pairs.drop_first(), name)
    }
}

pub fn lookup<'a>(pairs: &'a Vec<(String, JsonValue)>, name: &Vec<char>) -> (r: Option<
    &'a JsonValue,
>)
    ensures
        match r {
            Some(v) => lookup_sp(pair_views(pairs@), name@) == Some(v@),
            None => lookup_sp(pair_views(pairs@), name@) is None,
        },
{
    let ghost ps = pair_views(pairs@);
    let mut i: usize = 0;
    assert(ps.skip(0) =~= ps);
    while i < pairs.len()
        invariant
            0 <= i <= pairs@.len(),
            ps == pair_views(pairs@),
            ps.len() == pairs@.len(),
            lookup_sp(ps, name@) == lookup_sp(ps.skip(i as int), name@),
        decreases pairs.len() - i,
    {
        proof {
            assert(ps.skip(i as int)[0] == ps[i as int]);
            assert(ps[i as int] == (pairs@[i as int].0@, pairs@[i as int].1@));
            assert(ps.skip(i as int).drop_first() =~= ps.skip(i + 1));
        }
        let key = crate::text::chars_of(pairs[i].0.as_str());
        if crate::chars::seq_eq(&key, name) {
            return Some(&pairs[i].1);
        }
        i += 1;
    }
    assert(ps.skip(i as int).len() == 0);
    None
}

} // verus!
