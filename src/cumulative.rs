use vstd::prelude::*;
use vstd::string::StrSliceExecFns;
use vstd::string::StringExecFns;
use crate::column::{texts, at, broadcast_len, broadcast_length, source_index, ColumnError};

verus! {

/// Options of the configurable cumulative fold.
pub struct AddKwargs {
    /// Text put between two consecutive values.
    pub sep: String,
    /// Whether the first value is appended without a separator before it.
    pub trim: bool,
}

/// Accumulator after one more non-null value `v`: the separator goes first unless trimming
/// applies to the first value.
pub open spec fn step_acc(acc: Seq<char>, first: bool, v: Seq<char>, sep: Seq<char>, trim: bool) -> Seq<char> {
    if trim && first {
        acc + v
    } else {
        acc + sep + v
    }
}

/// Scan state `(accumulator, no value seen yet)` after the first `n` positions of `xs`.
pub open spec fn scan_state(xs: Seq<Option<Seq<char>>>, sep: Seq<char>, trim: bool, n: nat) -> (Seq<char>, bool)
    decreases n,
{
    if n == 0 {
        (Seq::<char>::empty(), true)
    } else {
        let prev = scan_state(xs, sep, trim, (n - 1) as nat);
        match xs[n - 1] {
            None => prev,
            Some(v) => (step_acc(prev.0, prev.1, v, sep, trim), false),
        }
    }
}

/// The cumulative fold of `xs`: null where the input is null, else the accumulator just after
/// that position.
pub open spec fn cumulative(xs: Seq<Option<Seq<char>>>, sep: Seq<char>, trim: bool) -> Seq<Option<Seq<char>>> {
    Seq::new(
        xs.len(),
        |i: int|
            match xs[i] {
                None => None,
                Some(_) => Some(scan_state(xs, sep, trim, (i + 1) as nat).0),
            },
    )
}

/// The mutable state of one cumulative fold, threaded left to right.
pub struct ScanState {
    /// Every value folded so far, with separators.
    pub acc: String,
    /// No non-null value has been folded yet.
    pub first: bool,
}

impl ScanState {
    /// The state before the first position.
    pub fn new() -> (r: ScanState)
        ensures
            r.acc@ == Seq::<char>::empty(),
            r.first,
    {
        ScanState { acc: String::new(), first: true }
    }

    /// Folds one position: a null leaves the state as it is and gives null; a value is appended
    /// and the new accumulator is given back.
    pub fn feed(&mut self, x: &Option<String>, sep: &str, trim: bool) -> (r: Option<String>)
        ensures
            match x {
                None => r is None && *final(self) == *old(self),
                Some(v) => {
                    &&& final(self).acc@ == step_acc(old(self).acc@, old(self).first, v@, sep@, trim)
                    &&& !final(self).first
                    &&& r matches Some(s) && s@ == final(self).acc@
                },
            },
    {
        match x {
            None => None,
            Some(v) => {
                if !self.first || !trim {
                    self.acc.append(sep);
                }
                self.acc.append(v.as_str());
                self.first = false;
                Some(self.acc.clone())
            },
        }
    }
}

/// Cumulative concatenation of a text column: each non-null position holds every non-null
/// value up to it, joined by `sep`; with `trim` off the separator also leads the first value.
/// Null positions stay null and leave the accumulator unchanged.
pub fn cum_fold(col: &Vec<Option<String>>, sep: &str, trim: bool) -> (r: Vec<Option<String>>)
    ensures
        texts(r@) == cumulative(texts(col@), sep@, trim),
{
    let ghost xs = texts(col@);
    let mut state = ScanState::new();
    let mut out: Vec<Option<String>> = Vec::with_capacity(col.len());
    let mut i: usize = 0;
    while i < col.len()
        invariant
            xs == texts(col@),
            i <= col.len(),
            (state.acc@, state.first) == scan_state(xs, sep@, trim, i as nat),
            texts(out@) == cumulative(xs, sep@, trim).take(i as int),
        decreases col.len() - i,
    {
        let ghost before = texts(out@);
        let r = state.feed(&col[i], sep, trim);
        out.push(r);
        proof {
            assert(texts(col@)[i as int] == xs[i as int]);
            assert(texts(out@) =~= before.push(texts(out@)[i as int]));
            assert(texts(out@)[i as int] == cumulative(xs, sep@, trim)[i as int]);
        }
        i = i + 1;
        assert(texts(out@) =~= cumulative(xs, sep@, trim).take(i as int));
    }
    assert(cumulative(xs, sep@, trim).take(i as int) =~= cumulative(xs, sep@, trim));
    out
}

/// Cumulative fold with separator and trim flag taken from the options record.
pub fn cum_str(col: &Vec<Option<String>>, kwargs: &AddKwargs) -> (r: Vec<Option<String>>)
    ensures
        texts(r@) == cumulative(texts(col@), kwargs.sep@, kwargs.trim),
{
    cum_fold(col, kwargs.sep.as_str(), kwargs.trim)
}

/// Cumulative fold with a single space between values and no leading separator.
pub fn cum_str_spaced(col: &Vec<Option<String>>) -> (r: Vec<Option<String>>)
    ensures
        texts(r@) == cumulative(texts(col@), seq![' '], true),
{
    let space = " ";
    proof {
        reveal_strlit(" ");
    }
    assert(space@ =~= seq![' ']);
    cum_fold(col, space, true)
}

/// Two nullable texts joined by a space; null if either is null.
pub open spec fn joined(a: Option<Seq<char>>, b: Option<Seq<char>>) -> Option<Seq<char>> {
    match (a, b) {
        (Some(x), Some(y)) => Some(x + seq![' '] + y),
        _ => None,
    }
}

/// Position-wise `joined` of two broadcast-compatible text columns; `None` when the lengths
/// neither match nor broadcast.
pub open spec fn joined_columns(a: Seq<Option<Seq<char>>>, b: Seq<Option<Seq<char>>>) -> Option<Seq<Option<Seq<char>>>> {
    match broadcast_len(a.len(), b.len()) {
        Some(n) => Some(Seq::new(n, |i: int| joined(at(a, i), at(b, i)))),
        None => None,
    }
}

/// Joins two text columns position by position as `"{left} {right}"`, broadcasting a length-1
/// column; a null on either side gives null.
pub fn join_columns(a: &Vec<Option<String>>, b: &Vec<Option<String>>) -> (r: Result<Vec<Option<String>>, ColumnError>)
    ensures
        match joined_columns(texts(a@), texts(b@)) {
            Some(v) => r matches Ok(out) && texts(out@) == v,
            None => r == Err::<Vec<Option<String>>, ColumnError>(
                ColumnError::LengthMismatch { left: a.len(), right: b.len() },
            ),
        },
{
    let n = match broadcast_length(a.len(), b.len()) {
        Ok(n) => n,
        Err(e) => return Err(e),
    };
    let space = " ";
    proof {
        reveal_strlit(" ");
    }
    assert(space@ =~= seq![' ']);
    let ghost ta = texts(a@);
    let ghost tb = texts(b@);
    let mut out: Vec<Option<String>> = Vec::with_capacity(n);
    let mut i: usize = 0;
    while i < n
        invariant
            ta == texts(a@),
            tb == texts(b@),
            space@ == seq![' '],
            broadcast_len(a@.len(), b@.len()) == Some(n as nat),
            i <= n,
            texts(out@).len() == i,
            forall|j: int| 0 <= j < i ==> texts(out@)[j] == joined(at(ta, j), at(tb, j)),
        decreases n - i,
    {
        let ia = source_index(a.len(), i);
        let ib = source_index(b.len(), i);
        let ghost before = texts(out@);
        let m = match (&a[ia], &b[ib]) {
            (Some(x), Some(y)) => {
                let mut s = String::from_str(x.as_str());
                s.append(space);
                s.append(y.as_str());
                Some(s)
            },
            _ => None,
        };
        out.push(m);
        proof {
            assert(ta[ia as int] == at(ta, i as int));
            assert(tb[ib as int] == at(tb, i as int));
            assert(texts(out@) =~= before.push(texts(out@)[i as int]));
        }
        i = i + 1;
    }
    assert(texts(out@) =~= Seq::new(n as nat, |j: int| joined(at(ta, j), at(tb, j))));
    Ok(out)
}

/// Joins two text columns as `"{left} {right}"` and folds the result cumulatively, one line
/// per value, with no leading line break.
pub fn cum_str_mul(a: &Vec<Option<String>>, b: &Vec<Option<String>>) -> (r: Result<Vec<Option<String>>, ColumnError>)
    ensures
        match joined_columns(texts(a@), texts(b@)) {
            Some(v) => r matches Ok(out) && texts(out@) == cumulative(v, seq!['\n'], true),
            None => r == Err::<Vec<Option<String>>, ColumnError>(
                ColumnError::LengthMismatch { left: a.len(), right: b.len() },
            ),
        },
{
    let lines = match join_columns(a, b) {
        Ok(lines) => lines,
        Err(e) => return Err(e),
    };
    let newline = "\n";
    proof {
        reveal_strlit("\n");
    }
    assert(newline@ =~= seq!['\n']);
    Ok(cum_fold(&lines, newline, true))
}

} // verus!
