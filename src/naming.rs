//! Type and variant names for the categorical columns of a schema.

use vstd::prelude::*;
use crate::schema::{ColumnSchema, ColumnType, Primitive, strings_view};

verus! {

/// What inflector's `to_pascal_case` makes of a text.
pub uninterp spec fn pascal_of(s: Seq<char>) -> Seq<char>;

/// Relies on inflector's `to_pascal_case`: its result depends on the text
/// alone.
#[verifier::external_body]
fn pascal_case(s: &str) -> (r: String)
    ensures
        r@ == pascal_of(s@),
{
    inflector::cases::pascalcase::to_pascal_case(s)
}

/// The enumeration that stands for one categorical column.
#[derive(Debug)]
pub struct EnumDef {
    pub name: String,
    pub variants: Vec<String>,
}

pub open spec fn enum_view(d: Option<EnumDef>) -> Option<(Seq<char>, Seq<Seq<char>>)> {
    match d {
        Some(e) => Some((e.name@, strings_view(e.variants@))),
        None => None,
    }
}

/// A categorical column becomes an enumeration named after the column, with
/// one variant per level, in level order; names are pascal-cased. Other
/// columns need none.
pub open spec fn enum_of(c: ColumnType) -> Option<(Seq<char>, Seq<Seq<char>>)> {
    if c.primitive == Primitive::Categorical {
        Some((pascal_of(c.name), c.levels.map_values(|l: Seq<char>| pascal_of(l))))
    } else {
        None
    }
}

fn pascal_all(levels: &Vec<String>) -> (r: Vec<String>)
    ensures
        strings_view(r@) == strings_view(levels@).map_values(|l: Seq<char>| pascal_of(l)),
{
    let mut r: Vec<String> = Vec::new();
    let mut i: usize = 0;
    while i < levels.len()
        invariant
            i <= levels@.len(),
            strings_view(r@) =~= strings_view(levels@).take(i as int).map_values(
                |l: Seq<char>| pascal_of(l),
            ),
        decreases levels@.len() - i,
    {
        let p = pascal_case(levels[i].as_str());
        let ghost before = r@;
        r.push(p);
        assert(strings_view(before.push(p)) =~= strings_view(before).push(p@));
        i = i + 1;
        assert(strings_view(r@) =~= strings_view(levels@).take(i as int).map_values(
            |l: Seq<char>| pascal_of(l),
        ));
    }
    assert(strings_view(levels@).take(i as int) =~= strings_view(levels@));
    r
}

/// For each column of the schema, in order, the enumeration it needs, if any.
pub fn enum_defs(schema: &Vec<ColumnSchema>) -> (r: Vec<Option<EnumDef>>)
    ensures
        r@.len() == schema@.len(),
        forall|i: int| 0 <= i < r@.len() ==> enum_view(#[trigger] r@[i]) == enum_of(schema@[i]@),
{
    let mut r: Vec<Option<EnumDef>> = Vec::new();
    let mut i: usize = 0;
    while i < schema.len()
        invariant
            i <= schema@.len(),
            r@.len() == i,
            forall|k: int| 0 <= k < i ==> enum_view(#[trigger] r@[k]) == enum_of(schema@[k]@),
        decreases schema@.len() - i,
    {
        let c = &schema[i];
        if c.primitive == Primitive::Categorical {
            let name = pascal_case(c.name.as_str());
            let variants = pascal_all(&c.levels);
            r.push(Some(EnumDef { name, variants }));
        } else {
            r.push(None);
        }
        i = i + 1;
    }
    r
}

} // verus!
