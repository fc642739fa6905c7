//! Resolution of each column's observations into one column type.

use vstd::prelude::*;
use crate::classify::{Category, FieldKind};
use crate::index::{Columns, Index, kinds_view};

verus! {

/// The resolved type of a column, before optionality is applied.
#[derive(PartialEq, Eq, Structural, Clone, Copy, Debug)]
pub enum Primitive {
    Integer,
    Real,
    Categorical,
}

/// The model of a resolved column.
pub struct ColumnType {
    pub name: Seq<char>,
    pub primitive: Primitive,
    pub optional: bool,
    pub levels: Seq<Seq<char>>,
}

pub open spec fn has_missing(cs: Seq<Category>) -> bool {
    exists|i: int| 0 <= i < cs.len() && #[trigger] cs[i] is Missing
}

pub open spec fn has_present(cs: Seq<Category>) -> bool {
    exists|i: int| 0 <= i < cs.len() && !(#[trigger] cs[i] is Missing)
}

pub open spec fn has_categorical(cs: Seq<Category>) -> bool {
    exists|i: int| 0 <= i < cs.len() && #[trigger] cs[i] is Categorical
}

pub open spec fn has_real(cs: Seq<Category>) -> bool {
    exists|i: int| 0 <= i < cs.len() && #[trigger] cs[i] is Real
}

/// Categorical wins over real, and real over integer; a column with no
/// present value at all is categorical.
pub open spec fn resolve_primitive(cs: Seq<Category>) -> Primitive {
    if has_categorical(cs) || !has_present(cs) {
        Primitive::Categorical
    } else if has_real(cs) {
        Primitive::Real
    } else {
        Primitive::Integer
    }
}

/// The distinct texts of the categorical observations, in order of first
/// occurrence.
pub open spec fn levels_of(cs: Seq<Category>) -> Seq<Seq<char>>
    decreases cs.len(),
{
    if cs.len() == 0 {
        Seq::empty()
    } else {
        let prev = levels_of(cs.drop_last());
        match cs.last() {
            Category::Categorical(t) => if prev.contains(t) {
                prev
            } else {
                prev.push(t)
            },
            _ => prev,
        }
    }
}

pub open spec fn resolve_column(name: Seq<char>, cs: Seq<Category>) -> ColumnType {
    ColumnType {
        name,
        primitive: resolve_primitive(cs),
        optional: has_missing(cs),
        levels: levels_of(cs),
    }
}

/// The schema: one resolved column per observed column, in the same order.
pub open spec fn resolve_all(cols: Columns) -> Seq<ColumnType> {
    cols.map_values(|p: (Seq<char>, Seq<Category>)| resolve_column(p.0, p.1))
}

/// One resolved column. `levels` is empty unless the column is categorical.
#[derive(Debug)]
pub struct ColumnSchema {
    pub name: String,
    pub primitive: Primitive,
    pub optional: bool,
    pub levels: Vec<String>,
}

pub open spec fn strings_view(v: Seq<String>) -> Seq<Seq<char>> {
    v.map_values(|s: String| s@)
}

impl View for ColumnSchema {
    type V = ColumnType;

    open spec fn view(&self) -> ColumnType {
        ColumnType {
            name: self.name@,
            primitive: self.primitive,
            optional: self.optional,
            levels: strings_view(self.levels@),
        }
    }
}

pub open spec fn schema_view(v: Seq<ColumnSchema>) -> Seq<ColumnType> {
    v.map_values(|c: ColumnSchema| c@)
}

impl ColumnSchema {
    /// Resolves one column from the categories observed for it.
    pub fn from_observations(name: &String, kinds: &Vec<FieldKind>) -> (r: ColumnSchema)
        ensures
            r@ == resolve_column(name@, kinds_view(kinds@)),
    {
        let ghost cs = kinds_view(kinds@);
        let mut missing = false;
        let mut present = false;
        let mut categorical = false;
        let mut any_real = false;
        let mut levels: Vec<String> = Vec::new();
        let mut i: usize = 0;
        while i < kinds.len()
            invariant
                cs == kinds_view(kinds@),
                i <= kinds@.len(),
                missing == has_missing(cs.take(i as int)),
                present == has_present(cs.take(i as int)),
                categorical == has_categorical(cs.take(i as int)),
                any_real == has_real(cs.take(i as int)),
                strings_view(levels@) == levels_of(cs.take(i as int)),
            decreases kinds@.len() - i,
        {
            let ghost pre = cs.take(i as int);
            let ghost next = cs.take(i + 1 as int);
            assert(next.drop_last() =~= pre);
            assert(next.last() == cs[i as int]);
            match &kinds[i] {
                FieldKind::Empty => {
                    missing = true;
                },
                FieldKind::Integer => {
                    present = true;
                },
                FieldKind::Real => {
                    present = true;
                    any_real = true;
                },
                FieldKind::Factor(t) => {
                    present = true;
                    categorical = true;
                    if !contains_text(&levels, t) {
                        let ghost before = levels@;
                        levels.push(t.clone());
                        assert(strings_view(levels@) =~= strings_view(before).push(t@));
                    }
                },
            }
            assert(missing == has_missing(next)) by {
                if has_missing(pre) {
                    let k = choose|k: int| 0 <= k < pre.len() && pre[k] is Missing;
                    assert(next[k] == pre[k]);
                }
                if has_missing(next) {
                    let k = choose|k: int| 0 <= k < next.len() && next[k] is Missing;
                    if k < i {
                        assert(pre[k] == next[k]);
                    }
                }
            }
            assert(present == has_present(next)) by {
                if has_present(pre) {
                    let k = choose|k: int| 0 <= k < pre.len() && !(pre[k] is Missing);
                    assert(next[k] == pre[k]);
                }
                if has_present(next) {
                    let k = choose|k: int| 0 <= k < next.len() && !(next[k] is Missing);
                    if k < i {
                        assert(pre[k] == next[k]);
                    }
                }
            }
            assert(categorical == has_categorical(next)) by {
                if has_categorical(pre) {
                    let k = choose|k: int| 0 <= k < pre.len() && pre[k] is Categorical;
                    assert(next[k] == pre[k]);
                }
                if has_categorical(next) {
                    let k = choose|k: int| 0 <= k < next.len() && next[k] is Categorical;
                    if k < i {
                        assert(pre[k] == next[k]);
                    }
                }
            }
            assert(any_real == has_real(next)) by {
                if has_real(pre) {
                    let k = choose|k: int| 0 <= k < pre.len() && pre[k] is Real;
                    assert(next[k] == pre[k]);
                }
                if has_real(next) {
                    let k = choose|k: int| 0 <= k < next.len() && next[k] is Real;
                    if k < i {
                        assert(pre[k] == next[k]);
                    }
                }
            }
            i = i + 1;
        }
        assert(cs.take(i as int) =~= cs);
        let primitive = if categorical || !present {
            Primitive::Categorical
        } else if any_real {
            Primitive::Real
        } else {
            Primitive::Integer
        };
        ColumnSchema { name: name.clone(), primitive, optional: missing, levels }
    }
}

fn contains_text(v: &Vec<String>, t: &String) -> (r: bool)
    ensures
        r == strings_view(v@).contains(t@),
{
    let mut j: usize = 0;
    while j < v.len()
        invariant
            j <= v@.len(),
            forall|k: int| 0 <= k < j ==> (#[trigger] v@[k])@ != t@,
        decreases v@.len() - j,
    {
        if v[j] == *t {
            assert(strings_view(v@)[j as int] == t@);
            return true;
        }
        j = j + 1;
    }
    assert(!strings_view(v@).contains(t@)) by {
        if strings_view(v@).contains(t@) {
            let k = choose|k: int| 0 <= k < v@.len() && strings_view(v@)[k] == t@;
            assert(v@[k]@ == t@);
        }
    }
    false
}

impl Index {
    /// Resolves every column, in first-seen order. The index is only read.
    pub fn to_schema(&self) -> (r: Vec<ColumnSchema>)
        ensures
            schema_view(r@) == resolve_all(self@),
    {
        let mut r: Vec<ColumnSchema> = Vec::new();
        let mut i: usize = 0;
        while i < self.inner.len()
            invariant
                i <= self.inner@.len(),
                schema_view(r@) =~= resolve_all(self@).take(i as int),
            decreases self.inner@.len() - i,
        {
            let c = ColumnSchema::from_observations(&self.inner[i].0, &self.inner[i].1);
            let ghost before = r@;
            r.push(c);
            assert(schema_view(before.push(c)) =~= schema_view(before).push(c@));
            i = i + 1;
            assert(schema_view(r@) =~= resolve_all(self@).take(i as int));
        }
        assert(resolve_all(self@).take(i as int) =~= resolve_all(self@));
        r
    }
}

} // verus!
