use vstd::prelude::*;

use crate::model::{
    c_string, distinct_rows, indexes_rows, lemma_added, lemma_div_of_multiple, lemma_row_end,
    lemma_rows, lemma_zero_columns_hold_nothing, rows_of, str_views, string_views, LabelsModel,
};
use crate::names::valid_schema;
use crate::row_index::{row_index_entries, RowIndex};
use crate::value::LabelValue;

verus! {

/// A row offered twice, with the position where it was first accepted.
#[derive(Debug)]
pub enum LabelsError {
    DuplicateEntry { values: Vec<LabelValue>, position: usize },
}

/// Builder for `Labels`: it holds a fixed schema and accepts distinct rows,
/// one at a time.
pub struct LabelsBuilder {
    names: Vec<String>,
    values: Vec<LabelValue>,
    positions: RowIndex,
}

impl View for LabelsBuilder {
    type V = LabelsModel;

    closed spec fn view(&self) -> LabelsModel {
        LabelsModel {
            names: string_views(self.names@),
            values: self.values@,
            index: row_index_entries(self.positions),
        }
    }
}

impl LabelsBuilder {
    /// Create a new empty `LabelsBuilder` with the given column `names`, which
    /// must be valid identifiers, pairwise distinct.
    pub fn new(names: Vec<&str>) -> (r: LabelsBuilder)
        requires
            valid_schema(str_views(names@)),
        ensures
            r@ == LabelsModel::empty(str_views(names@)),
            r@.wf(),
    {
        let mut owned: Vec<String> = Vec::new();
        let mut i: usize = 0;
        while i < names.len()
            invariant
                i <= names@.len(),
                owned@.len() == i,
                forall|k: int| 0 <= k < i ==> (#[trigger] owned@[k])@ == names@[k]@,
            decreases names@.len() - i,
        {
            owned.push(names[i].to_owned());
            i = i + 1;
        }
        let r = LabelsBuilder { names: owned, values: Vec::new(), positions: RowIndex::new() };
        assert(string_views(r.names@) =~= str_views(names@));
        assert(r@.rows() =~= Seq::<Seq<LabelValue>>::empty()) by {
            if r@.width() > 0 {
                assert(0nat / r@.width() == 0);
            }
        }
        assert(r@.count() == 0) by {
            if r@.width() > 0 {
                assert(0nat / r@.width() == 0);
            }
        }
        assert(r@.values.len() == r@.count() * r@.width());
        assert(valid_schema(r@.names));
        assert(indexes_rows(r@.index, r@.rows()));
        r
    }

    /// Get the number of columns.
    pub fn size(&self) -> (r: usize)
        ensures
            r == self@.width(),
    {
        self.names.len()
    }

    /// Reserve space for `additional` more rows. This is a hint only: the
    /// content is unchanged, and a request that cannot be met is ignored.
    pub fn reserve(&mut self, additional: usize)
        ensures
            final(self)@ == old(self)@,
    {
        match additional.checked_mul(self.names.len()) {
            Some(n) => {
                let _ = self.values.try_reserve(n);
            },
            None => {},
        }
    }

    /// Add the row `entry`, which must have one value per column. A row equal
    /// to one already added is refused, with the position of the first one,
    /// and leaves the builder unchanged.
    pub fn add(&mut self, entry: &[LabelValue]) -> (r: Result<(), LabelsError>)
        requires
            old(self)@.wf(),
            old(self)@.width() > 0,
            entry@.len() == old(self)@.width(),
        ensures
            final(self)@.wf(),
            r is Ok <==> !old(self)@.rows().contains(entry@),
            r is Ok ==> final(self)@ == old(self)@.added(entry@),
            r is Ok ==> final(self)@.rows() == old(self)@.rows().push(entry@),
            r is Err ==> final(self)@ == old(self)@,
            match r {
                Ok(_) => true,
                Err(LabelsError::DuplicateEntry { values, position }) => {
                    &&& values@ == entry@
                    &&& position < old(self)@.count()
                    &&& old(self)@.row(position as int) == entry@
                },
            },
    {
        proof {
            lemma_rows(self@);
        }
        let width = self.names.len();
        let count = self.values.len() / width;
        match self.positions.get(entry) {
            Some(position) => {
                return Err(LabelsError::DuplicateEntry { values: vstd::slice::slice_to_vec(entry), position });
            },
            None => {},
        }
        assert(!self@.rows().contains(entry@)) by {
            if self@.rows().contains(entry@) {
                let i = choose|i: int| 0 <= i < self@.rows().len() && self@.rows()[i] == entry@;
                assert(self@.index.contains_key(self@.rows()[i]));
            }
        }
        let ghost before = self@;
        let mut i: usize = 0;
        while i < entry.len()
            invariant
                i <= entry@.len(),
                self@ == (LabelsModel { values: before.values + entry@.subrange(0, i as int), ..before }),
            decreases entry@.len() - i,
        {
            self.values.push(entry[i]);
            i = i + 1;
            assert(self.values@ =~= before.values + entry@.subrange(0, i as int));
        }
        assert(entry@.subrange(0, entry@.len() as int) =~= entry@);
        self.positions.insert(entry, count);
        proof {
            lemma_added(before, entry@);
        }
        Ok(())
    }
}

/// A set of labels: a table of unique rows of label values, with one named
/// column per value, stored as a flat row-major array, and an index from
/// each row to its position.
pub struct Labels {
    names: Vec<String>,
    c_names: Vec<Vec<u8>>,
    values: Vec<LabelValue>,
    positions: RowIndex,
}

impl View for Labels {
    type V = LabelsModel;

    closed spec fn view(&self) -> LabelsModel {
        LabelsModel {
            names: string_views(self.names@),
            values: self.values@,
            index: row_index_entries(self.positions),
        }
    }
}

impl Labels {
    #[verifier::type_invariant]
    closed spec fn inv(self) -> bool {
        &&& self@.wf()
        &&& self.values@.len() <= usize::MAX
        &&& self.c_names@.len() == self.names@.len()
        &&& forall|k: int|
            0 <= k < self.names@.len() ==> (#[trigger] self.c_names@[k])@ == c_string(
                self.names@[k]@,
            )
    }
}

impl Clone for Labels {
    /// A copy holding the same names, rows and index.
    fn clone(&self) -> (r: Labels)
        ensures
            r@ == self@,
    {
        proof {
            use_type_invariant(self);
        }
        let mut names: Vec<String> = Vec::new();
        let mut c_names: Vec<Vec<u8>> = Vec::new();
        let mut i: usize = 0;
        while i < self.names.len()
            invariant
                self.inv(),
                i <= self.names@.len(),
                names@.len() == i,
                c_names@.len() == i,
                forall|k: int| 0 <= k < i ==> #[trigger] names@[k] == self.names@[k],
                forall|k: int| 0 <= k < i ==> (#[trigger] c_names@[k])@ == self.c_names@[k]@,
            decreases self.names@.len() - i,
        {
            names.push(self.names[i].clone());
            c_names.push(vstd::slice::slice_to_vec(self.c_names[i].as_slice()));
            i = i + 1;
        }
        let values = vstd::slice::slice_to_vec(self.values.as_slice());
        assert(names@ =~= self.names@);
        Labels { names, c_names, values, positions: self.positions.duplicate() }
    }
}

impl PartialEq for Labels {
    /// Two sets of labels are equal when they have the same names and the same
    /// values; their indexes are then equal too.
    fn eq(&self, other: &Labels) -> (r: bool) {
        if self.names.len() != other.names.len() || self.values.len() != other.values.len() {
            assert(self@.names.len() != other@.names.len() || self@.values.len()
                != other@.values.len());
            return false;
        }
        let mut i: usize = 0;
        while i < self.names.len()
            invariant
                self.names@.len() == other.names@.len(),
                i <= self.names@.len(),
                forall|k: int| 0 <= k < i ==> (#[trigger] self.names@[k])@ == other.names@[k]@,
            decreases self.names@.len() - i,
        {
            if self.names[i] != other.names[i] {
                assert(self@.names[i as int] != other@.names[i as int]);
                return false;
            }
            i = i + 1;
        }
        assert(self@.names =~= other@.names);
        let mut j: usize = 0;
        while j < self.values.len()
            invariant
                self.values@.len() == other.values@.len(),
                j <= self.values@.len(),
                forall|k: int| 0 <= k < j ==> self.values@[k] == other.values@[k],
            decreases self.values@.len() - j,
        {
            if self.values[j] != other.values[j] {
                return false;
            }
            j = j + 1;
        }
        assert(self@.values =~= other@.values);
        true
    }
}

impl vstd::std_specs::cmp::PartialEqSpecImpl for Labels {
    open spec fn obeys_eq_spec() -> bool {
        true
    }

    open spec fn eq_spec(&self, other: &Labels) -> bool {
        self@.names == other@.names && self@.values == other@.values
    }
}

/// The null-terminated bytes of `name`, which holds ASCII characters only.
fn c_string_of(name: &String) -> (r: Vec<u8>)
    requires
        vstd::utf8::is_ascii_chars(name@),
    ensures
        r@ == c_string(name@),
{
    let s = name.as_str();
    proof {
        vstd::string::is_ascii_spec_bytes(s);
    }
    let mut bytes = vstd::slice::slice_to_vec(s.as_bytes());
    bytes.push(0u8);
    assert(bytes@ =~= c_string(name@));
    bytes
}

impl LabelsBuilder {
    /// Finish building, and get the `Labels`.
    pub fn finish(self) -> (r: Labels)
        requires
            self@.wf(),
        ensures
            r@ == self@,
            r@.wf(),
            self@.width() == 0 ==> r@.count() == 0 && r@.rows().len() == 0,
    {
        proof {
            if self@.width() == 0 {
                lemma_zero_columns_hold_nothing(self@);
            }
        }
        // reading the length records that it fits in a usize, as the invariant asks
        let total = self.values.len();
        let mut c_names: Vec<Vec<u8>> = Vec::new();
        let mut i: usize = 0;
        while i < self.names.len()
            invariant
                self@.wf(),
                i <= self.names@.len(),
                c_names@.len() == i,
                forall|k: int|
                    0 <= k < i ==> (#[trigger] c_names@[k])@ == c_string(self.names@[k]@),
            decreases self.names@.len() - i,
        {
            proof {
                assert(self@.names[i as int] == self.names@[i as int]@);
                assert(crate::names::valid_name(self@.names[i as int]));
                assert(vstd::utf8::is_ascii_chars(self.names@[i as int]@));
            }
            let c = c_string_of(&self.names[i]);
            c_names.push(c);
            i = i + 1;
        }
        assert(self.values@.len() == total);
        Labels { names: self.names, c_names, values: self.values, positions: self.positions }
    }
}

impl Labels {
    /// Get the number of columns. Every set of labels is well formed.
    pub fn size(&self) -> (r: usize)
        ensures
            r == self@.width(),
            self@.wf(),
    {
        proof {
            use_type_invariant(self);
        }
        self.names.len()
    }

    /// Get the names of the columns.
    pub fn names(&self) -> (r: Vec<&str>)
        ensures
            str_views(r@) == self@.names,
    {
        let mut r: Vec<&str> = Vec::new();
        let mut i: usize = 0;
        while i < self.names.len()
            invariant
                i <= self.names@.len(),
                r@.len() == i,
                forall|k: int| 0 <= k < i ==> (#[trigger] r@[k])@ == self.names@[k]@,
            decreases self.names@.len() - i,
        {
            r.push(self.names[i].as_str());
            i = i + 1;
        }
        assert(str_views(r@) =~= self@.names);
        r
    }

    /// Get the names of the columns as null-terminated byte strings.
    pub fn c_names(&self) -> (r: &[Vec<u8>])
        ensures
            r@.len() == self@.width(),
            forall|k: int| 0 <= k < self@.width() ==> (#[trigger] r@[k])@ == c_string(self@.names[k]),
    {
        proof {
            use_type_invariant(self);
        }
        self.c_names.as_slice()
    }

    /// Get all values, as a flat array in row-major order.
    pub fn values(&self) -> (r: &[LabelValue])
        ensures
            r@ == self@.values,
    {
        self.values.as_slice()
    }

    /// Get the number of rows.
    pub fn count(&self) -> (r: usize)
        ensures
            r == self@.count(),
            r == self@.rows().len(),
            self@.wf(),
    {
        proof {
            use_type_invariant(self);
            lemma_rows(self@);
        }
        if self.names.len() == 0 {
            0
        } else {
            self.values.len() / self.names.len()
        }
    }

    /// Check whether there are no rows.
    pub fn is_empty(&self) -> (r: bool)
        ensures
            r == (self@.count() == 0),
    {
        self.count() == 0
    }

    /// Check whether `label` is one of the rows.
    pub fn contains(&self, label: &[LabelValue]) -> (r: bool)
        ensures
            r == self@.rows().contains(label@),
    {
        proof {
            use_type_invariant(self);
        }
        let found = self.positions.get(label);
        proof {
            if self@.rows().contains(label@) {
                let i = choose|i: int| 0 <= i < self@.rows().len() && self@.rows()[i] == label@;
                assert(self@.index.contains_key(self@.rows()[i]));
            }
            if self@.index.contains_key(label@) {
                assert(self@.rows()[self@.index[label@] as int] == label@);
            }
        }
        found.is_some()
    }

    /// Get the position of the row `value`, which must have one value per
    /// column, or `None` when it is not one of the rows.
    pub fn position(&self, value: &[LabelValue]) -> (r: Option<usize>)
        requires
            value@.len() == self@.width(),
        ensures
            r == self@.position_of(value@),
            match r {
                Some(p) => p < self@.count() && self@.row(p as int) == value@,
                None => !self@.rows().contains(value@),
            },
    {
        proof {
            use_type_invariant(self);
            lemma_rows(self@);
        }
        let found = self.positions.get(value);
        proof {
            if self@.rows().contains(value@) {
                let i = choose|i: int| 0 <= i < self@.rows().len() && self@.rows()[i] == value@;
                assert(self@.index.contains_key(self@.rows()[i]));
            }
            if self@.index.contains_key(value@) {
                assert(self@.rows()[self@.index[value@] as int] == value@);
            }
        }
        found
    }

    /// Get the row at position `i`, which must be below `count()`.
    pub fn index(&self, i: usize) -> (r: &[LabelValue])
        requires
            i < self@.count(),
        ensures
            r@ == self@.row(i as int),
    {
        proof {
            use_type_invariant(self);
            lemma_row_end(i as int, self@.count() as int, self@.width() as int);
        }
        let width = self.names.len();
        vstd::slice::slice_subrange(self.values.as_slice(), i * width, i * width + width)
    }

    /// Iterate over the rows, in position order.
    pub fn iter(&self) -> (r: Iter<'_>)
        ensures
            r@ == (self@.rows(), 0nat),
    {
        Iter { labels: self, next: 0 }
    }
}

/// Iterator over the rows of `Labels`, in position order.
pub struct Iter<'a> {
    labels: &'a Labels,
    next: usize,
}

impl<'a> View for Iter<'a> {
    type V = (Seq<Seq<LabelValue>>, nat);

    /// The rows iterated over, and the position of the next one.
    closed spec fn view(&self) -> (Seq<Seq<LabelValue>>, nat) {
        (self.labels@.rows(), self.next as nat)
    }
}

impl<'a> Iter<'a> {
    /// Get the next row, or `None` once every row was given.
    pub fn next(&mut self) -> (r: Option<&'a [LabelValue]>)
        ensures
            final(self)@.0 == old(self)@.0,
            old(self)@.1 < old(self)@.0.len() ==> {
                &&& r is Some
                &&& r.unwrap()@ == old(self)@.0[old(self)@.1 as int]
                &&& final(self)@.1 == old(self)@.1 + 1
            },
            old(self)@.1 >= old(self)@.0.len() ==> r is None && final(self)@ == old(self)@,
    {
        let count = self.labels.count();
        if self.next < count {
            proof {
                use_type_invariant(self.labels);
                lemma_rows(self.labels@);
            }
            let row = self.labels.index(self.next);
            self.next = self.next + 1;
            Some(row)
        } else {
            None
        }
    }

    /// Get the number of rows left.
    pub fn len(&self) -> (r: usize)
        ensures
            r == (if self@.1 < self@.0.len() {
                self@.0.len() - self@.1
            } else {
                0
            }),
    {
        let count = self.labels.count();
        if self.next < count {
            count - self.next
        } else {
            0
        }
    }
}

impl Labels {
    /// Rebuild a set of labels from its column names and its values, as a
    /// flat row-major array; the index is computed again from the values.
    /// Fails when two rows are equal.
    pub fn from_flat(names: Vec<&str>, values: &[LabelValue]) -> (r: Result<Labels, LabelsError>)
        requires
            valid_schema(str_views(names@)),
            names@.len() == 0 ==> values@.len() == 0,
            names@.len() > 0 ==> values@.len() % names@.len() == 0,
        ensures
            r is Ok <==> distinct_rows(rows_of(values@, names@.len())),
            match r {
                Ok(l) => l@.names == str_views(names@) && l@.values == values@,
                Err(LabelsError::DuplicateEntry { values: v, position }) => exists|j: int|
                    position < j < rows_of(values@, names@.len()).len()
                        && rows_of(values@, names@.len())[position as int] == v@
                        && #[trigger] rows_of(values@, names@.len())[j] == v@,
            },
    {
        let ghost all = rows_of(values@, names@.len());
        let mut builder = LabelsBuilder::new(names);
        let width = builder.size();
        if width == 0 {
            assert(values@ =~= Seq::<LabelValue>::empty());
            return Ok(builder.finish());
        }
        let total = values.len();
        let count = total / width;
        proof {
            assert(width == names@.len());
            let x = values@.len() as int;
            let d = width as int;
            vstd::arithmetic::div_mod::lemma_fundamental_div_mod(x, d);
            assert(x % d == 0);
            assert(x == (x / d) * d) by (nonlinear_arith)
                requires
                    x == d * (x / d) + x % d,
                    x % d == 0,
            ;
            assert(values@.len() == count * width);
        }
        let mut i: usize = 0;
        while i < count
            invariant
                builder@.wf(),
                builder@.names == str_views(names@),
                width == names@.len(),
                width > 0,
                count == values@.len() / (width as nat),
                values@.len() == count * width,
                values@.len() == total,
                all == rows_of(values@, names@.len()),
                i <= count,
                builder@.values == values@.subrange(0, i * width),
                builder@.rows() == all.subrange(0, i as int),
                distinct_rows(all.subrange(0, i as int)),
            decreases count - i,
        {
            proof {
                lemma_row_end(i as int, count as int, width as int);
                assert(builder@.values.len() == i * width);
                lemma_div_of_multiple(i as int, width as int);
            }
            let row = vstd::slice::slice_subrange(values, i * width, i * width + width);
            let ghost before = builder@;
            match builder.add(row) {
                Ok(()) => {},
                Err(e) => {
                    proof {
                        lemma_rows(before);
                        if let LabelsError::DuplicateEntry { values: v, position } = &e {
                            assert(before.rows()[*position as int] == all[*position as int]);
                            assert(all[i as int] == row@);
                        }
                    }
                    return Err(e);
                },
            }
            proof {
                assert(all[i as int] == row@);
                assert(all.subrange(0, i + 1) =~= all.subrange(0, i as int).push(row@));
                assert(builder@.values =~= values@.subrange(0, (i + 1) * width)) by {
                    assert((i + 1) * width == i * width + width) by (nonlinear_arith);
                }
                assert forall|a: int, b: int|
                    0 <= a < b < i + 1 implies #[trigger] all.subrange(0, i + 1)[a]
                    != #[trigger] all.subrange(0, i + 1)[b] by {
                    if b == i {
                        assert(before.rows()[a] == all.subrange(0, i + 1)[a]);
                    } else {
                        assert(all.subrange(0, i as int)[a] == all.subrange(0, i + 1)[a]);
                        assert(all.subrange(0, i as int)[b] == all.subrange(0, i + 1)[b]);
                    }
                }
            }
            i = i + 1;
        }
        proof {
            assert(all.len() == count);
            assert(all.subrange(0, count as int) =~= all);
            assert(values@.subrange(0, count * width) =~= values@);
        }
        Ok(builder.finish())
    }
}

} // verus!
