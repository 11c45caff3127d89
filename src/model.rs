use vstd::prelude::*;

use crate::names::valid_schema;
use crate::value::LabelValue;

verus! {

/// The row at position `i` of a flat, row-major array with `width` columns.
pub open spec fn row_at(values: Seq<LabelValue>, width: nat, i: int) -> Seq<LabelValue> {
    values.subrange(i * width, i * width + width)
}

/// The rows of a flat, row-major array with `width` columns.
pub open spec fn rows_of(values: Seq<LabelValue>, width: nat) -> Seq<Seq<LabelValue>> {
    if width == 0 {
        Seq::empty()
    } else {
        Seq::new(values.len() / width, |i: int| row_at(values, width, i))
    }
}

/// No row occurs twice.
pub open spec fn distinct_rows(rows: Seq<Seq<LabelValue>>) -> bool {
    forall|i: int, j: int|
        0 <= i < j < rows.len() ==> #[trigger] rows[i] != #[trigger] rows[j]
}

/// `index` maps each row of `rows` to its position, and holds nothing else.
pub open spec fn indexes_rows(
    index: Map<Seq<LabelValue>, usize>,
    rows: Seq<Seq<LabelValue>>,
) -> bool {
    &&& forall|i: int|
        #![trigger rows[i]]
        0 <= i < rows.len() ==> index.contains_key(rows[i]) && index[rows[i]] == i
    &&& forall|k: Seq<LabelValue>|
        #[trigger] index.contains_key(k) ==> (index[k] as int) < rows.len() && rows[index[k] as int]
            == k
}

/// The views of a sequence of string slices.
pub open spec fn str_views(names: Seq<&str>) -> Seq<Seq<char>> {
    names.map_values(|s: &str| s@)
}

/// The views of a sequence of strings.
pub open spec fn string_views(names: Seq<String>) -> Seq<Seq<char>> {
    names.map_values(|s: String| s@)
}

/// The null-terminated bytes of an ASCII name.
pub open spec fn c_string(name: Seq<char>) -> Seq<u8> {
    name.map_values(|c: char| c as u8).push(0u8)
}

/// The abstract content of a set of labels, or of a builder: the column
/// names, the flat row-major values, and the index from rows to positions.
pub ghost struct LabelsModel {
    pub names: Seq<Seq<char>>,
    pub values: Seq<LabelValue>,
    pub index: Map<Seq<LabelValue>, usize>,
}

impl LabelsModel {
    /// No names, no rows.
    pub open spec fn empty(names: Seq<Seq<char>>) -> LabelsModel {
        LabelsModel { names, values: Seq::empty(), index: Map::empty() }
    }

    /// The number of columns.
    pub open spec fn width(self) -> nat {
        self.names.len()
    }

    /// The number of rows.
    pub open spec fn count(self) -> nat {
        if self.width() == 0 {
            0
        } else {
            self.values.len() / self.width()
        }
    }

    /// The row at position `i`.
    pub open spec fn row(self, i: int) -> Seq<LabelValue> {
        row_at(self.values, self.width(), i)
    }

    /// All rows, in position order.
    pub open spec fn rows(self) -> Seq<Seq<LabelValue>> {
        rows_of(self.values, self.width())
    }

    /// The names form a valid schema, the values fill whole rows, and the
    /// index maps each row to its position and holds nothing else.
    pub open spec fn wf(self) -> bool {
        &&& valid_schema(self.names)
        &&& self.values.len() == self.count() * self.width()
        &&& indexes_rows(self.index, self.rows())
    }

    /// The content after `row` is accepted at the next position.
    pub open spec fn added(self, row: Seq<LabelValue>) -> LabelsModel {
        LabelsModel {
            names: self.names,
            values: self.values + row,
            index: self.index.insert(row, self.count() as usize),
        }
    }
}

pub(crate) proof fn lemma_row_end(i: int, count: int, width: int)
    requires
        0 <= i < count,
        0 <= width,
    ensures
        0 <= i * width,
        i * width + width <= count * width,
{
    assert(0 <= i * width) by (nonlinear_arith)
        requires
            0 <= i,
            0 <= width,
    ;
    assert(i * width + width <= count * width) by (nonlinear_arith)
        requires
            i + 1 <= count,
            0 <= width,
    ;
}

pub(crate) proof fn lemma_div_of_multiple(count: int, width: int)
    requires
        0 <= count,
        0 < width,
    ensures
        (count * width) / width == count,
{
    assert((count * width) / width == count) by (nonlinear_arith)
        requires
            0 <= count,
            0 < width,
    ;
}

/// The rows of a well-formed model, spelled out.
pub(crate) proof fn lemma_rows(m: LabelsModel)
    requires
        m.wf(),
    ensures
        m.rows().len() == m.count(),
        forall|i: int| 0 <= i < m.count() ==> #[trigger] m.rows()[i] == m.row(i),
        forall|i: int| 0 <= i < m.count() ==> (#[trigger] m.row(i)).len() == m.width(),
{
    assert forall|i: int| 0 <= i < m.count() implies (#[trigger] m.row(i)).len() == m.width() by {
        lemma_row_end(i, m.count() as int, m.width() as int);
    }
}

/// Accepting a row that is not yet present keeps the model well formed and
/// puts the row at the next position.
pub(crate) proof fn lemma_added(m: LabelsModel, row: Seq<LabelValue>)
    requires
        m.wf(),
        m.width() > 0,
        row.len() == m.width(),
        !m.rows().contains(row),
        m.count() <= usize::MAX,
    ensures
        m.added(row).wf(),
        m.added(row).count() == m.count() + 1,
        m.added(row).rows() == m.rows().push(row),
{
    let n = m.added(row);
    let w = m.width() as int;
    let c = m.count() as int;
    assert(n.values.len() == (c + 1) * w) by (nonlinear_arith)
        requires
            n.values.len() == m.values.len() + w,
            m.values.len() == c * w,
    ;
    lemma_div_of_multiple(c + 1, w);
    lemma_rows(m);
    assert(m.count() as usize == c);
    assert forall|i: int| 0 <= i < c implies #[trigger] n.row(i) == m.row(i) by {
        lemma_row_end(i, c, w);
        assert(n.row(i) =~= m.row(i));
    }
    assert(c * w + w == (c + 1) * w) by (nonlinear_arith);
    assert(n.row(c) =~= row);
    assert(n.count() == c + 1);
    assert(n.values.len() / n.width() == c + 1);
    assert(n.rows().len() == c + 1);
    assert forall|i: int| 0 <= i < c + 1 implies #[trigger] n.rows()[i] == m.rows().push(row)[i] by {
        assert(n.rows()[i] == n.row(i));
        if i < c {
            assert(m.rows()[i] == m.row(i));
            assert(n.row(i) == m.row(i));
        }
    }
    assert(n.rows() =~= m.rows().push(row));
    let rows = n.rows();
    let idx = n.index;
    assert(idx == m.index.insert(row, c as usize));
    assert forall|k: Seq<LabelValue>| #[trigger] idx.contains_key(k) implies (idx[k] as int)
        < rows.len() && rows[idx[k] as int] == k by {
        if k != row {
            assert(m.index.contains_key(k));
            assert(rows[idx[k] as int] == m.rows()[idx[k] as int]);
        } else {
            assert(rows[c] == row);
        }
    }
    assert forall|i: int| 0 <= i < rows.len() implies #[trigger] idx.contains_key(rows[i])
        && idx[rows[i]] == i by {
        if i < c {
            assert(m.rows()[i] == rows[i]);
            assert(rows[i] != row);
        }
    }
}

impl LabelsModel {
    /// The position that the index gives for `row`, if any.
    pub open spec fn position_of(self, row: Seq<LabelValue>) -> Option<usize> {
        if self.index.contains_key(row) {
            Some(self.index[row])
        } else {
            None
        }
    }
}

/// The content of a builder created with `names` once each row of `rows`
/// has been accepted, in order.
pub open spec fn built_from(names: Seq<Seq<char>>, rows: Seq<Seq<LabelValue>>) -> LabelsModel
    decreases rows.len(),
{
    if rows.len() == 0 {
        LabelsModel::empty(names)
    } else {
        built_from(names, rows.drop_last()).added(rows.last())
    }
}

/// Building from a valid schema and distinct rows of the right width
/// accepts every row: the result is well formed, holds exactly these rows in
/// this order, and gives each row its insertion index as position.
pub proof fn lemma_distinct_rows_all_accepted(
    names: Seq<Seq<char>>,
    rows: Seq<Seq<LabelValue>>,
)
    requires
        valid_schema(names),
        names.len() > 0,
        forall|i: int| 0 <= i < rows.len() ==> (#[trigger] rows[i]).len() == names.len(),
        distinct_rows(rows),
        rows.len() <= usize::MAX,
    ensures
        built_from(names, rows).wf(),
        built_from(names, rows).names == names,
        built_from(names, rows).rows() == rows,
        built_from(names, rows).count() == rows.len(),
        forall|i: int|
            0 <= i < rows.len() ==> built_from(names, rows).position_of(#[trigger] rows[i]) == Some(
                i as usize,
            ),
    decreases rows.len(),
{
    let m = built_from(names, rows);
    if rows.len() == 0 {
        assert(m.rows() =~= rows) by {
            assert(0nat / names.len() == 0);
        }
        assert(m.count() == 0) by {
            assert(0nat / names.len() == 0);
        }
        assert(m.values.len() == 0);
        assert(0 * m.width() == 0);
        assert(m.values.len() == m.count() * m.width());
        assert(indexes_rows(m.index, m.rows()));
    } else {
        let prefix = rows.drop_last();
        assert forall|a: int, b: int| 0 <= a < b < prefix.len() implies #[trigger] prefix[a]
            != #[trigger] prefix[b] by {
            assert(rows[a] != rows[b]);
        }
        lemma_distinct_rows_all_accepted(names, prefix);
        let p = built_from(names, prefix);
        assert(!p.rows().contains(rows.last())) by {
            if p.rows().contains(rows.last()) {
                let k = choose|k: int| 0 <= k < p.rows().len() && p.rows()[k] == rows.last();
                assert(rows[k] == rows[rows.len() - 1]);
            }
        }
        assert(rows.last() == rows[rows.len() - 1]);
        lemma_added(p, rows.last());
        assert(m == p.added(rows.last()));
        assert(m.rows() =~= rows);
    }
    assert forall|i: int| 0 <= i < rows.len() implies m.position_of(#[trigger] rows[i]) == Some(
        i as usize,
    ) by {
        assert(m.rows()[i] == rows[i]);
    }
}

/// Once a row has been accepted it is one of the rows, so offering it again
/// is refused.
pub proof fn lemma_accepted_row_is_present(m: LabelsModel, row: Seq<LabelValue>)
    requires
        m.wf(),
        m.width() > 0,
        row.len() == m.width(),
        !m.rows().contains(row),
        m.count() < usize::MAX,
    ensures
        m.added(row).rows().contains(row),
        forall|k: Seq<LabelValue>| m.rows().contains(k) ==> #[trigger] m.added(row).rows().contains(k),
{
    lemma_added(m, row);
    assert(m.added(row).rows()[m.count() as int] == row);
    assert forall|k: Seq<LabelValue>| m.rows().contains(k) implies #[trigger] m.added(
        row,
    ).rows().contains(k) by {
        let i = choose|i: int| 0 <= i < m.rows().len() && m.rows()[i] == k;
        assert(m.added(row).rows()[i] == k);
    }
}

/// Positional access and the index agree: the row at position `i` has
/// position `i`, and a position that the index gives holds that very row.
pub proof fn lemma_positions_agree_with_rows(m: LabelsModel)
    requires
        m.wf(),
    ensures
        forall|i: int| 0 <= i < m.count() ==> m.position_of(#[trigger] m.row(i)) == Some(i as usize),
        forall|k: Seq<LabelValue>| #[trigger]
            m.position_of(k) is Some ==> m.position_of(k).unwrap() < m.count() && m.row(
                m.position_of(k).unwrap() as int,
            ) == k,
        distinct_rows(m.rows()),
{
    lemma_rows(m);
    assert forall|i: int| 0 <= i < m.count() implies m.position_of(#[trigger] m.row(i)) == Some(
        i as usize,
    ) by {
        assert(m.rows()[i] == m.row(i));
    }
    assert forall|k: Seq<LabelValue>| #[trigger] m.position_of(k) is Some implies m.position_of(
        k,
    ).unwrap() < m.count() && m.row(m.position_of(k).unwrap() as int) == k by {
        assert(m.index.contains_key(k));
        assert(m.rows()[m.index[k] as int] == k);
    }
    assert forall|a: int, b: int| 0 <= a < b < m.rows().len() implies #[trigger] m.rows()[a]
        != #[trigger] m.rows()[b] by {
        assert(m.index.contains_key(m.rows()[a]));
        assert(m.index.contains_key(m.rows()[b]));
    }
}

/// The rows still to come from an iterator with view `it`.
pub open spec fn remaining(it: (Seq<Seq<LabelValue>>, nat)) -> Seq<Seq<LabelValue>> {
    it.0.subrange(it.1 as int, it.0.len() as int)
}

/// Iteration is restartable and in position order: two fresh iterators over
/// the same labels yield the same rows, `count()` of them, the `i`-th being
/// the row at position `i`; and a call of `next` moves one position on.
pub proof fn lemma_iteration_in_order(
    m: LabelsModel,
    a: (Seq<Seq<LabelValue>>, nat),
    b: (Seq<Seq<LabelValue>>, nat),
)
    requires
        m.wf(),
        a == (m.rows(), 0nat),
        b == (m.rows(), 0nat),
    ensures
        remaining(a) == remaining(b),
        remaining(a).len() == m.count(),
        forall|i: int| 0 <= i < m.count() ==> #[trigger] remaining(a)[i] == m.row(i),
        forall|k: nat|
            k < m.count() ==> #[trigger] remaining((m.rows(), k)) == seq![m.row(k as int)]
                + remaining((m.rows(), k + 1)),
{
    lemma_rows(m);
    assert(remaining(a) =~= m.rows());
    assert forall|k: nat| k < m.count() implies #[trigger] remaining((m.rows(), k)) == seq![
        m.row(k as int),
    ] + remaining((m.rows(), k + 1)) by {
        assert(remaining((m.rows(), k)) =~= seq![m.row(k as int)] + remaining((m.rows(), k + 1)));
    }
}

/// With no columns there are no rows, and the index is empty.
pub proof fn lemma_zero_columns_hold_nothing(m: LabelsModel)
    requires
        m.wf(),
        m.width() == 0,
    ensures
        m.count() == 0,
        m.rows().len() == 0,
        m.values.len() == 0,
        m.index == Map::<Seq<LabelValue>, usize>::empty(),
{
    assert(m.index =~= Map::<Seq<LabelValue>, usize>::empty()) by {
        assert forall|k: Seq<LabelValue>| !m.index.contains_key(k) by {
            if m.index.contains_key(k) {
                assert((m.index[k] as int) < m.rows().len());
            }
        }
    }
}

/// The index is a function of the names and the flat values alone: two
/// well-formed label sets with the same names and values have the same index,
/// hence the same answers to `contains` and `position`; and their rows are
/// distinct, so rebuilding from those values succeeds.
pub proof fn lemma_index_determined_by_flat_values(a: LabelsModel, b: LabelsModel)
    requires
        a.wf(),
        b.wf(),
        a.names == b.names,
        a.values == b.values,
    ensures
        a.index == b.index,
        a.rows() == b.rows(),
        forall|row: Seq<LabelValue>| #[trigger] a.position_of(row) == b.position_of(row),
        distinct_rows(rows_of(a.values, a.width())),
{
    lemma_positions_agree_with_rows(a);
    assert(a.rows() == b.rows());
    assert forall|k: Seq<LabelValue>| #[trigger] a.index.contains_key(k) == b.index.contains_key(k)
        by {
        if a.index.contains_key(k) {
            assert(a.rows()[a.index[k] as int] == k);
        }
        if b.index.contains_key(k) {
            assert(b.rows()[b.index[k] as int] == k);
        }
    }
    assert forall|k: Seq<LabelValue>| a.index.contains_key(k) implies #[trigger] a.index[k]
        == b.index[k] by {
        let i = a.index[k] as int;
        assert(a.rows()[i] == k);
    }
    assert(a.index =~= b.index);
}

} // verus!
