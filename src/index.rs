//! Rows of classified cells, and the per-column record of what was seen.

use vstd::prelude::*;
use crate::classify::{Category, FieldKind, classify};

verus! {

/// One classified cell, under the name of its column.
#[derive(Debug)]
pub struct Field {
    pub name: String,
    pub kind: FieldKind,
}

impl View for Field {
    type V = (Seq<char>, Category);

    open spec fn view(&self) -> (Seq<char>, Category) {
        (self.name@, self.kind@)
    }
}

impl Field {
    pub fn with(name: String, kind: FieldKind) -> (r: Self)
        ensures
            r@ == (name@, kind@),
    {
        Field { name, kind }
    }
}

/// The classified cells of one row, in column order.
#[derive(Debug)]
pub struct RecordType {
    pub fields: Vec<Field>,
}

pub open spec fn fields_view(fields: Seq<Field>) -> Seq<(Seq<char>, Category)> {
    fields.map_values(|f: Field| f@)
}

impl View for RecordType {
    type V = Seq<(Seq<char>, Category)>;

    open spec fn view(&self) -> Seq<(Seq<char>, Category)> {
        fields_view(self.fields@)
    }
}

/// A row of raw cells, each classified under the header of its column.
pub open spec fn classify_row(headers: Seq<String>, cells: Seq<String>) -> Seq<
    (Seq<char>, Category),
> {
    Seq::new(headers.len(), |i: int| (headers[i]@, classify(cells[i]@)))
}

impl RecordType {
    pub fn with(fields: Vec<Field>) -> (r: Self)
        ensures
            r@ == fields_view(fields@),
    {
        RecordType { fields }
    }

    /// Classifies each cell of a row under its header; `cells[i]` is the
    /// value of the column named `headers[i]`.
    pub fn from_row(headers: &Vec<String>, cells: &Vec<String>) -> (r: Self)
        requires
            headers@.len() == cells@.len(),
        ensures
            r@ == classify_row(headers@, cells@),
    {
        let mut fields: Vec<Field> = Vec::new();
        let mut i: usize = 0;
        while i < headers.len()
            invariant
                headers@.len() == cells@.len(),
                i <= headers@.len(),
                fields_view(fields@) =~= classify_row(headers@, cells@).take(i as int),
            decreases headers@.len() - i,
        {
            let f = Field::with(headers[i].clone(), FieldKind::parse(cells[i].as_str()));
            let ghost before = fields@;
            fields.push(f);
            assert(fields_view(before.push(f)) =~= fields_view(before).push(f@));
            i = i + 1;
            assert(fields_view(fields@) =~= classify_row(headers@, cells@).take(i as int));
        }
        assert(classify_row(headers@, cells@).take(i as int) =~= classify_row(headers@, cells@));
        RecordType::with(fields)
    }
}

/// The observations of each column: its name and the categories seen for it,
/// one per row, in arrival order.
pub type Columns = Seq<(Seq<char>, Seq<Category>)>;

/// No two columns share a name.
pub open spec fn names_unique(cols: Columns) -> bool {
    forall|i: int, j: int|
        0 <= i < cols.len() && 0 <= j < cols.len() && i != j ==> #[trigger] cols[i].0
            != #[trigger] cols[j].0
}

pub open spec fn has_column(cols: Columns, name: Seq<char>) -> bool {
    exists|i: int| 0 <= i < cols.len() && #[trigger] cols[i].0 == name
}

/// Appends one observation to the column of that name, or starts a new
/// column after the others if none has it yet.
pub open spec fn observe(cols: Columns, name: Seq<char>, c: Category) -> Columns {
    if has_column(cols, name) {
        let i = choose|i: int| 0 <= i < cols.len() && #[trigger] cols[i].0 == name;
        cols.update(i, (name, cols[i].1.push(c)))
    } else {
        cols.push((name, seq![c]))
    }
}

/// The observations after each cell of a row is recorded in turn.
pub open spec fn observe_row(cols: Columns, row: Seq<(Seq<char>, Category)>) -> Columns
    decreases row.len(),
{
    if row.len() == 0 {
        cols
    } else {
        let last = row.last();
        observe(observe_row(cols, row.drop_last()), last.0, last.1)
    }
}

/// Keeps track of what each column has held so far, columns in first-seen
/// order.
#[derive(Debug)]
pub struct Index {
    pub inner: Vec<(String, Vec<FieldKind>)>,
}

pub open spec fn kinds_view(kinds: Seq<FieldKind>) -> Seq<Category> {
    kinds.map_values(|k: FieldKind| k@)
}

impl View for Index {
    type V = Columns;

    open spec fn view(&self) -> Columns {
        self.inner@.map_values(|p: (String, Vec<FieldKind>)| (p.0@, kinds_view(p.1@)))
    }
}

impl Index {
    pub open spec fn wf(&self) -> bool {
        names_unique(self@)
    }

    pub fn new() -> (r: Self)
        ensures
            r@ == Seq::<(Seq<char>, Seq<Category>)>::empty(),
            r.wf(),
    {
        Index { inner: Vec::new() }
    }

    /// Records one observation of the column `name`.
    pub fn observe(&mut self, name: &String, kind: &FieldKind)
        requires
            old(self).wf(),
        ensures
            final(self).wf(),
            final(self)@ == observe(old(self)@, name@, kind@),
    {
        let mut i: usize = 0;
        while i < self.inner.len()
            invariant
                i <= self.inner@.len(),
                self.inner@ == old(self).inner@,
                names_unique(self@),
                forall|j: int| 0 <= j < i ==> #[trigger] self@[j].0 != name@,
            decreases self.inner@.len() - i,
        {
            if self.inner[i].0 == *name {
                let ghost cols = self@;
                assert(has_column(cols, name@)) by {
                    assert(cols[i as int].0 == name@);
                }
                let ghost k = choose|k: int| 0 <= k < cols.len() && #[trigger] cols[k].0 == name@;
                proof {
                    if k != i as int {
                        assert(cols[k].0 != cols[i as int].0);
                    }
                }
                let ghost old_kinds = self.inner@[i as int].1@;
                let c = kind.clone();
                self.inner[i].1.push(c);
                assert(kinds_view(old_kinds.push(c)) =~= kinds_view(old_kinds).push(kind@));
                assert(self@ =~= cols.update(i as int, (name@, cols[i as int].1.push(kind@))));
                assert(names_unique(self@)) by {
                    assert forall|a: int, b: int|
                        0 <= a < self@.len() && 0 <= b < self@.len() && a != b implies #[trigger] self@[a].0
                            != #[trigger] self@[b].0 by {
                        assert(self@[a].0 == cols[a].0);
                        assert(self@[b].0 == cols[b].0);
                    }
                }
                return;
            }
            i = i + 1;
        }
        let ghost cols = self@;
        assert(!has_column(cols, name@));
        let one = vec![kind.clone()];
        assert(kinds_view(one@) =~= seq![kind@]);
        self.inner.push((name.clone(), one));
        assert(self@ =~= cols.push((name@, seq![kind@])));
        assert(names_unique(self@)) by {
            assert forall|a: int, b: int|
                0 <= a < self@.len() && 0 <= b < self@.len() && a != b implies #[trigger] self@[a].0
                    != #[trigger] self@[b].0 by {
                if a < cols.len() && b < cols.len() {
                    assert(self@[a].0 == cols[a].0);
                    assert(self@[b].0 == cols[b].0);
                } else if a < cols.len() {
                    assert(self@[a].0 == cols[a].0);
                } else {
                    assert(self@[b].0 == cols[b].0);
                }
            }
        }
    }

    /// Records every cell of one row.
    pub fn add(&mut self, rt: RecordType)
        requires
            old(self).wf(),
        ensures
            final(self).wf(),
            final(self)@ == observe_row(old(self)@, rt@),
    {
        let mut i: usize = 0;
        while i < rt.fields.len()
            invariant
                self.wf(),
                i <= rt@.len(),
                self@ == observe_row(old(self)@, rt@.take(i as int)),
            decreases rt.fields@.len() - i,
        {
            let f = &rt.fields[i];
            self.observe(&f.name, &f.kind);
            assert(rt@.take(i + 1 as int).drop_last() =~= rt@.take(i as int));
            i = i + 1;
        }
        assert(rt@.take(i as int) =~= rt@);
    }
}

} // verus!
