use vstd::prelude::*;
use crate::column::{at, broadcast_len, broadcast_length, source_index, ColumnError, DType};

verus! {

/// An integer element type with its natural total order.
pub trait IntElem: Copy + Sized {
    spec fn as_int(self) -> int;

    /// The larger of the two values.
    fn max_of(self, other: Self) -> (r: Self)
        ensures
            r == (if self.as_int() >= other.as_int() { self } else { other }),
    ;
}

impl IntElem for i32 {
    open spec fn as_int(self) -> int {
        self as int
    }

    fn max_of(self, other: i32) -> (r: i32) {
        if self >= other {
            self
        } else {
            other
        }
    }
}

impl IntElem for i64 {
    open spec fn as_int(self) -> int {
        self as int
    }

    fn max_of(self, other: i64) -> (r: i64) {
        if self >= other {
            self
        } else {
            other
        }
    }
}

/// Maximum of two nullable values: null if either is null.
pub open spec fn max_opt<T: IntElem>(a: Option<T>, b: Option<T>) -> Option<T> {
    match (a, b) {
        (Some(x), Some(y)) => Some(if x.as_int() >= y.as_int() { x } else { y }),
        _ => None,
    }
}

/// Position-wise maximum of two broadcast-compatible columns; `None` when the lengths
/// neither match nor broadcast.
pub open spec fn larger_of<T: IntElem>(a: Seq<Option<T>>, b: Seq<Option<T>>) -> Option<Seq<Option<T>>> {
    match broadcast_len(a.len(), b.len()) {
        Some(n) => Some(Seq::new(n, |i: int| max_opt(at(a, i), at(b, i)))),
        None => None,
    }
}

/// Position-wise maximum of two columns, a length-1 column standing for every position.
pub fn max_columns<T: IntElem>(a: &Vec<Option<T>>, b: &Vec<Option<T>>) -> (r: Result<Vec<Option<T>>, ColumnError>)
    ensures
        match larger_of(a@, b@) {
            Some(v) => r matches Ok(out) && out@ == v,
            None => r == Err::<Vec<Option<T>>, ColumnError>(
                ColumnError::LengthMismatch { left: a.len(), right: b.len() },
            ),
        },
{
    let n = match broadcast_length(a.len(), b.len()) {
        Ok(n) => n,
        Err(e) => return Err(e),
    };
    let mut out: Vec<Option<T>> = Vec::with_capacity(n);
    let mut i: usize = 0;
    while i < n
        invariant
            broadcast_len(a@.len(), b@.len()) == Some(n as nat),
            i <= n,
            out@.len() == i,
            forall|j: int| 0 <= j < i ==> out@[j] == max_opt(at(a@, j), at(b@, j)),
        decreases n - i,
    {
        let x = a[source_index(a.len(), i)];
        let y = b[source_index(b.len(), i)];
        let m = match (x, y) {
            (Some(x), Some(y)) => Some(x.max_of(y)),
            _ => None,
        };
        out.push(m);
        i = i + 1;
    }
    assert(out@ =~= Seq::new(n as nat, |j: int| max_opt(at(a@, j), at(b@, j))));
    Ok(out)
}

/// A column of one of the integer types that `larger` takes.
#[derive(Debug, Clone, PartialEq, Eq)]
pub enum IntColumn {
    Int32(Vec<Option<i32>>),
    Int64(Vec<Option<i64>>),
}

impl IntColumn {
    pub open spec fn spec_dtype(&self) -> DType {
        match self {
            IntColumn::Int32(_) => DType::Int32,
            IntColumn::Int64(_) => DType::Int64,
        }
    }

    /// The element type of the column.
    pub fn dtype(&self) -> (r: DType)
        ensures
            r == self.spec_dtype(),
    {
        match self {
            IntColumn::Int32(_) => DType::Int32,
            IntColumn::Int64(_) => DType::Int64,
        }
    }
}

/// Position-wise maximum of two columns of one integer type; the result has the type of the
/// first. Nulls propagate and a length-1 column is broadcast.
pub fn larger(a: &IntColumn, b: &IntColumn) -> (r: Result<IntColumn, ColumnError>)
    ensures
        match (a, b) {
            (IntColumn::Int32(x), IntColumn::Int32(y)) => match larger_of(x@, y@) {
                Some(v) => r matches Ok(IntColumn::Int32(out)) && out@ == v,
                None => r == Err::<IntColumn, ColumnError>(
                    ColumnError::LengthMismatch { left: x.len(), right: y.len() },
                ),
            },
            (IntColumn::Int64(x), IntColumn::Int64(y)) => match larger_of(x@, y@) {
                Some(v) => r matches Ok(IntColumn::Int64(out)) && out@ == v,
                None => r == Err::<IntColumn, ColumnError>(
                    ColumnError::LengthMismatch { left: x.len(), right: y.len() },
                ),
            },
            _ => r == Err::<IntColumn, ColumnError>(
                ColumnError::TypeMismatch { expected: a.spec_dtype(), found: b.spec_dtype() },
            ),
        },
{
    match (a, b) {
        (IntColumn::Int32(x), IntColumn::Int32(y)) => match max_columns(x, y) {
            Ok(out) => Ok(IntColumn::Int32(out)),
            Err(e) => Err(e),
        },
        (IntColumn::Int64(x), IntColumn::Int64(y)) => match max_columns(x, y) {
            Ok(out) => Ok(IntColumn::Int64(out)),
            Err(e) => Err(e),
        },
        _ => Err(ColumnError::TypeMismatch { expected: a.dtype(), found: b.dtype() }),
    }
}

/// Whether `larger` supports columns of element type `d`.
pub open spec fn max_supported(d: DType) -> bool {
    !(d is Other)
}

/// Accepts the four numeric types of the max reducers and refuses any other by its name.
pub fn check_max_dtype(d: &DType) -> (r: Result<(), ColumnError>)
    ensures
        max_supported(*d) ==> r == Ok::<(), ColumnError>(()),
        !max_supported(*d) ==> r == Err::<(), ColumnError>(
            ColumnError::UnsupportedDtype { dtype: d->Other_0 },
        ),
{
    match d {
        DType::Other(name) => Err(ColumnError::UnsupportedDtype { dtype: name.clone() }),
        _ => Ok(()),
    }
}

} // verus!

verus! {

/// No two columns have lengths that conflict: each pair is of one length or holds a
/// column of length 1.
pub open spec fn compatible(cols: Seq<Seq<Option<i64>>>) -> bool {
    forall|j: int, k: int|
        0 <= j < cols.len() && 0 <= k < cols.len() ==> {
            ||| #[trigger] cols[j].len() == #[trigger] cols[k].len()
            ||| cols[j].len() == 1
            ||| cols[k].len() == 1
        }
}

/// `r` is the position-wise maximum over all of `cols`: its length is the one length
/// other than 1 among the columns (1 if there is none), a position is null where any column
/// is null there, and otherwise holds the largest of the columns' values.
pub open spec fn is_largest_of(cols: Seq<Seq<Option<i64>>>, r: Seq<Option<i64>>) -> bool {
    &&& forall|k: int| 0 <= k < cols.len() ==> #[trigger] cols[k].len() == r.len() || cols[k].len() == 1
    &&& exists|k: int| 0 <= k < cols.len() && #[trigger] cols[k].len() == r.len()
    &&& forall|i: int|
        0 <= i < r.len() ==> {
            &&& (#[trigger] r[i] is Some <==> forall|k: int| 0 <= k < cols.len() ==> #[trigger] at(cols[k], i) is Some)
            &&& r[i] is Some ==> forall|k: int| 0 <= k < cols.len() ==> #[trigger] at(cols[k], i)->0 <= r[i]->0
            &&& r[i] is Some ==> exists|k: int| 0 <= k < cols.len() && #[trigger] at(cols[k], i) == r[i]
        }
}

/// Column `j` is the first whose length conflicts with those before it, which share the one
/// length `left` other than 1; `right` is column `j`'s length.
pub open spec fn first_conflict(cols: Seq<Seq<Option<i64>>>, j: int, left: nat, right: nat) -> bool {
    &&& 1 <= j < cols.len()
    &&& compatible(cols.take(j))
    &&& !compatible(cols.take(j + 1))
    &&& right == cols[j].len()
    &&& left != 1
    &&& exists|k: int| 0 <= k < j && #[trigger] cols[k].len() == left
}

/// The columns' values as sequences.
pub open spec fn views(cols: Seq<Vec<Option<i64>>>) -> Seq<Seq<Option<i64>>> {
    cols.map_values(|c: Vec<Option<i64>>| c@)
}

fn copy_column(c: &Vec<Option<i64>>) -> (r: Vec<Option<i64>>)
    ensures
        r@ == c@,
{
    let mut out: Vec<Option<i64>> = Vec::with_capacity(c.len());
    let mut i: usize = 0;
    while i < c.len()
        invariant
            i <= c.len(),
            out@ == c@.take(i as int),
        decreases c.len() - i,
    {
        out.push(c[i]);
        i = i + 1;
        assert(out@ =~= c@.take(i as int));
    }
    assert(c@.take(i as int) =~= c@);
    out
}

proof fn lemma_single(c: Seq<Option<i64>>)
    ensures
        compatible(seq![c]),
        is_largest_of(seq![c], c),
{
    let cols = seq![c];
    assert(cols[0] == c);
    assert forall|i: int| 0 <= i < c.len() implies at(cols[0], i) == c[i] by {}
}

proof fn lemma_extend(cols: Seq<Seq<Option<i64>>>, acc: Seq<Option<i64>>, c: Seq<Option<i64>>)
    requires
        cols.len() >= 1,
        compatible(cols),
        is_largest_of(cols, acc),
    ensures
        compatible(cols.push(c)) <==> broadcast_len(acc.len(), c.len()) is Some,
        larger_of(acc, c) matches Some(v) ==> is_largest_of(cols.push(c), v),
{
    let all = cols.push(c);
    let l = acc.len();
    let k0 = choose|k: int| 0 <= k < cols.len() && #[trigger] cols[k].len() == l;
    assert(all[k0] == cols[k0]);
    assert(all[cols.len() as int] == c);
    if broadcast_len(l, c.len()) is Some {
        assert forall|j: int, k: int| 0 <= j < all.len() && 0 <= k < all.len() implies {
            ||| #[trigger] all[j].len() == #[trigger] all[k].len()
            ||| all[j].len() == 1
            ||| all[k].len() == 1
        } by {
            if j < cols.len() {
                assert(all[j] == cols[j]);
            }
            if k < cols.len() {
                assert(all[k] == cols[k]);
            }
        }
        let n = broadcast_len(l, c.len())->0;
        let v = Seq::new(n, |i: int| max_opt(at(acc, i), at(c, i)));
        assert(larger_of(acc, c) == Some(v));
        assert forall|k: int| 0 <= k < all.len() implies #[trigger] all[k].len() == v.len() || all[k].len() == 1 by {
            if k < cols.len() {
                assert(all[k] == cols[k]);
            }
        }
        if c.len() == n {
            assert(all[cols.len() as int].len() == v.len());
        } else {
            assert(all[k0].len() == v.len());
        }
        assert forall|i: int| 0 <= i < v.len() implies {
            &&& (#[trigger] v[i] is Some <==> forall|k: int| 0 <= k < all.len() ==> #[trigger] at(all[k], i) is Some)
            &&& v[i] is Some ==> forall|k: int| 0 <= k < all.len() ==> #[trigger] at(all[k], i)->0 <= v[i]->0
            &&& v[i] is Some ==> exists|k: int| 0 <= k < all.len() && #[trigger] at(all[k], i) == v[i]
        } by {
            let ia = if l == 1 { 0 } else { i };
            assert(at(acc, i) == acc[ia]);
            assert forall|k: int| 0 <= k < cols.len() implies #[trigger] at(all[k], i) == at(cols[k], ia) by {
                assert(all[k] == cols[k]);
            }
            assert(at(all[cols.len() as int], i) == at(c, i));
            if v[i] is Some {
                assert forall|k: int| 0 <= k < all.len() implies #[trigger] at(all[k], i) is Some by {
                    if k < cols.len() {
                        assert(at(cols[k], ia) is Some);
                    }
                }
                assert forall|k: int| 0 <= k < all.len() implies #[trigger] at(all[k], i)->0 <= v[i]->0 by {
                    if k < cols.len() {
                        assert(at(cols[k], ia)->0 <= acc[ia]->0);
                    }
                }
                if v[i] == at(c, i) {
                    assert(at(all[cols.len() as int], i) == v[i]);
                } else {
                    let kk = choose|k: int| 0 <= k < cols.len() && #[trigger] at(cols[k], ia) == acc[ia];
                    assert(at(all[kk], i) == v[i]);
                }
            } else {
                if at(c, i) is None {
                    assert(!(at(all[cols.len() as int], i) is Some));
                } else {
                    let kk = choose|k: int| 0 <= k < cols.len() && !(#[trigger] at(cols[k], ia) is Some);
                    assert(!(at(all[kk], i) is Some));
                }
            }
        }
    } else {
        assert(!(all[k0].len() == all[cols.len() as int].len() || all[k0].len() == 1
            || all[cols.len() as int].len() == 1));
    }
}

/// Position-wise maximum over two or more 64-bit integer columns, folded left to right
/// through the broadcasting maximum of `larger`. Succeeds exactly when no two column lengths
/// conflict; a single column comes back unchanged.
pub fn largest(cols: &Vec<Vec<Option<i64>>>) -> (r: Result<Vec<Option<i64>>, ColumnError>)
    requires
        cols.len() >= 1,
    ensures
        r is Ok <==> compatible(views(cols@)),
        r matches Ok(out) ==> is_largest_of(views(cols@), out@),
        cols.len() == 1 ==> (r matches Ok(out) && out@ == cols[0]@),
        r matches Err(e) ==> e is LengthMismatch,
        r matches Err(e) ==> exists|j: int| first_conflict(views(cols@), j, e->left as nat, e->right as nat),
{
    let ghost vs = views(cols@);
    let mut acc = copy_column(&cols[0]);
    proof {
        lemma_single(acc@);
        assert(vs.take(1) =~= seq![acc@]);
    }
    let mut j: usize = 1;
    while j < cols.len()
        invariant
            vs == views(cols@),
            1 <= j <= cols.len(),
            compatible(vs.take(j as int)),
            is_largest_of(vs.take(j as int), acc@),
            j == 1 ==> acc@ == cols[0]@,
        decreases cols.len() - j,
    {
        proof {
            lemma_extend(vs.take(j as int), acc@, cols[j as int]@);
            assert(vs.take(j as int).push(cols[j as int]@) =~= vs.take(j + 1));
        }
        match max_columns(&acc, &cols[j]) {
            Ok(out) => {
                acc = out;
            },
            Err(e) => {
                proof {
                    assert(!compatible(vs.take(j + 1)));
                    let k = choose|k: int| 0 <= k < j && #[trigger] vs.take(j as int)[k].len() == acc@.len();
                    assert(vs[k].len() == acc@.len());
                    assert(vs[j as int] == cols[j as int]@);
                    assert(first_conflict(vs, j as int, acc@.len(), cols[j as int]@.len()));
                    assert(larger_of(acc@, cols[j as int]@) is None);
                    assert(e == ColumnError::LengthMismatch { left: acc.len(), right: cols[j as int].len() });
                    assert(first_conflict(vs, j as int, e->left as nat, e->right as nat));
                    if compatible(vs) {
                        assert forall|a: int, b: int| 0 <= a < j + 1 && 0 <= b < j + 1 implies {
                            ||| #[trigger] vs.take(j + 1)[a].len() == #[trigger] vs.take(j + 1)[b].len()
                            ||| vs.take(j + 1)[a].len() == 1
                            ||| vs.take(j + 1)[b].len() == 1
                        } by {
                            assert(vs[a].len() == vs[b].len() || vs[a].len() == 1 || vs[b].len() == 1);
                        }
                    }
                }
                return Err(e);
            },
        }
        j = j + 1;
    }
    assert(vs.take(j as int) =~= vs);
    Ok(acc)
}

} // verus!

verus! {

/// The relation `is_largest_of` fixes its result: two results for the same columns are equal.
pub proof fn lemma_largest_unique(cols: Seq<Seq<Option<i64>>>, r1: Seq<Option<i64>>, r2: Seq<Option<i64>>)
    requires
        is_largest_of(cols, r1),
        is_largest_of(cols, r2),
    ensures
        r1 == r2,
{
    let k1 = choose|k: int| 0 <= k < cols.len() && #[trigger] cols[k].len() == r1.len();
    let k2 = choose|k: int| 0 <= k < cols.len() && #[trigger] cols[k].len() == r2.len();
    assert(cols[k2].len() == r1.len() || cols[k2].len() == 1);
    assert(cols[k1].len() == r2.len() || cols[k1].len() == 1);
    assert(r1.len() == r2.len());
    assert forall|i: int| 0 <= i < r1.len() implies r1[i] == r2[i] by {
        if r1[i] is Some {
            assert(r2[i] is Some);
            let a = choose|k: int| 0 <= k < cols.len() && #[trigger] at(cols[k], i) == r1[i];
            let b = choose|k: int| 0 <= k < cols.len() && #[trigger] at(cols[k], i) == r2[i];
            assert(at(cols[a], i)->0 <= r2[i]->0);
            assert(at(cols[b], i)->0 <= r1[i]->0);
        } else {
            assert(!(r2[i] is Some));
        }
    }
    assert(r1 =~= r2);
}

/// Reordering the columns changes neither whether their lengths are compatible nor their
/// position-wise maximum.
pub proof fn lemma_largest_order_free(cols: Seq<Seq<Option<i64>>>, other: Seq<Seq<Option<i64>>>, r: Seq<Option<i64>>)
    requires
        cols.to_multiset() == other.to_multiset(),
    ensures
        compatible(cols) == compatible(other),
        is_largest_of(cols, r) == is_largest_of(other, r),
        forall|r1: Seq<Option<i64>>, r2: Seq<Option<i64>>|
            is_largest_of(cols, r1) && is_largest_of(other, r2) ==> r1 == r2,
{
    lemma_permuted_one_way(cols, other, r);
    lemma_permuted_one_way(other, cols, r);
    assert forall|r1: Seq<Option<i64>>, r2: Seq<Option<i64>>|
        is_largest_of(cols, r1) && is_largest_of(other, r2) implies r1 == r2 by {
        lemma_permuted_one_way(other, cols, r2);
        lemma_largest_unique(cols, r1, r2);
    }
}

proof fn lemma_permuted_one_way(cols: Seq<Seq<Option<i64>>>, other: Seq<Seq<Option<i64>>>, r: Seq<Option<i64>>)
    requires
        cols.to_multiset() == other.to_multiset(),
    ensures
        compatible(cols) ==> compatible(other),
        is_largest_of(cols, r) ==> is_largest_of(other, r),
{
    lemma_members(cols, other);
    if compatible(cols) {
        lemma_compatible_members(cols, other);
    }
    if is_largest_of(cols, r) {
        lemma_largest_members(cols, other, r);
    }
}

proof fn lemma_members(cols: Seq<Seq<Option<i64>>>, other: Seq<Seq<Option<i64>>>)
    requires
        cols.to_multiset() == other.to_multiset(),
    ensures
        forall|k: int| 0 <= k < other.len() ==> cols.contains(#[trigger] other[k]),
{
    cols.to_multiset_ensures();
    other.to_multiset_ensures();
    assert forall|k: int| 0 <= k < other.len() implies cols.contains(#[trigger] other[k]) by {
        assert(other.contains(other[k]));
        assert(other.to_multiset().count(other[k]) > 0);
        assert(cols.contains(other[k]));
    }
}

proof fn lemma_compatible_members(cols: Seq<Seq<Option<i64>>>, other: Seq<Seq<Option<i64>>>)
    requires
        compatible(cols),
        forall|k: int| 0 <= k < other.len() ==> cols.contains(#[trigger] other[k]),
    ensures
        compatible(other),
{
    assert forall|j: int, k: int| 0 <= j < other.len() && 0 <= k < other.len() implies {
        ||| #[trigger] other[j].len() == #[trigger] other[k].len()
        ||| other[j].len() == 1
        ||| other[k].len() == 1
    } by {
        assert(cols.contains(other[j]));
        let a = choose|m: int| 0 <= m < cols.len() && cols[m] == other[j];
        assert(cols.contains(other[k]));
        let b = choose|m: int| 0 <= m < cols.len() && cols[m] == other[k];
        assert(cols[a].len() == cols[b].len() || cols[a].len() == 1 || cols[b].len() == 1);
    }
}

proof fn lemma_largest_members(cols: Seq<Seq<Option<i64>>>, other: Seq<Seq<Option<i64>>>, r: Seq<Option<i64>>)
    requires
        cols.to_multiset() == other.to_multiset(),
        is_largest_of(cols, r),
        forall|k: int| 0 <= k < other.len() ==> cols.contains(#[trigger] other[k]),
    ensures
        is_largest_of(other, r),
{
    cols.to_multiset_ensures();
    other.to_multiset_ensures();
    assert forall|k: int| 0 <= k < other.len() implies #[trigger] other[k].len() == r.len() || other[k].len() == 1 by {
        assert(cols.contains(other[k]));
        let a = choose|m: int| 0 <= m < cols.len() && cols[m] == other[k];
        assert(cols[a].len() == r.len() || cols[a].len() == 1);
    }
    let m0 = choose|m: int| 0 <= m < cols.len() && #[trigger] cols[m].len() == r.len();
    assert(cols.contains(cols[m0]));
    assert(cols.to_multiset().count(cols[m0]) > 0);
    assert(other.contains(cols[m0]));
    let k0 = choose|k: int| 0 <= k < other.len() && other[k] == cols[m0];
    assert(other[k0].len() == r.len());
    assert forall|i: int| 0 <= i < r.len() implies {
        &&& (#[trigger] r[i] is Some <==> forall|k: int| 0 <= k < other.len() ==> #[trigger] at(other[k], i) is Some)
        &&& r[i] is Some ==> forall|k: int| 0 <= k < other.len() ==> #[trigger] at(other[k], i)->0 <= r[i]->0
        &&& r[i] is Some ==> exists|k: int| 0 <= k < other.len() && #[trigger] at(other[k], i) == r[i]
    } by {
        if r[i] is Some {
            assert forall|k: int| 0 <= k < other.len() implies #[trigger] at(other[k], i) is Some
                && at(other[k], i)->0 <= r[i]->0 by {
                assert(cols.contains(other[k]));
                let a = choose|m: int| 0 <= m < cols.len() && cols[m] == other[k];
                assert(at(cols[a], i) is Some);
                assert(at(cols[a], i)->0 <= r[i]->0);
            }
            let a = choose|m: int| 0 <= m < cols.len() && #[trigger] at(cols[m], i) == r[i];
            assert(cols.contains(cols[a]));
            assert(cols.to_multiset().count(cols[a]) > 0);
            assert(other.contains(cols[a]));
            let b = choose|k: int| 0 <= k < other.len() && other[k] == cols[a];
            assert(at(other[b], i) == r[i]);
        } else {
            let a = choose|m: int| 0 <= m < cols.len() && !(#[trigger] at(cols[m], i) is Some);
            assert(cols.contains(cols[a]));
            assert(cols.to_multiset().count(cols[a]) > 0);
            assert(other.contains(cols[a]));
            let b = choose|k: int| 0 <= k < other.len() && other[k] == cols[a];
            assert(!(at(other[b], i) is Some));
        }
    }
}

} // verus!
