//! What every table of the two stores shares: rows with an id, rows that
//! refer to a book, and the removal of the rows that fail a test.
use vstd::prelude::*;

verus! {

/// A row with a surrogate id.
pub trait Keyed {
    spec fn key(&self) -> i64;

    fn id(&self) -> (r: i64)
        ensures
            r == self.key(),
    ;
}

/// A row that refers to a book of the catalog.
pub trait BookRef {
    spec fn book(&self) -> i64;

    fn book_id(&self) -> (r: i64)
        ensures
            r == self.book(),
    ;
}

/// A row that belongs to a reading state.
pub trait StateRef {
    spec fn state(&self) -> i64;

    fn state_id(&self) -> (r: i64)
        ensures
            r == self.state(),
    ;
}

/// The largest id among `rows`, and 0 where there is none above 0.
pub open spec fn largest_key<T: Keyed>(rows: Seq<T>) -> int
    decreases rows.len(),
{
    if rows.len() == 0 {
        0
    } else {
        let rest = largest_key(rows.drop_last());
        if rows.last().key() > rest {
            rows.last().key() as int
        } else {
            rest
        }
    }
}

/// The ids of `rows`, in order.
pub open spec fn keys<T: Keyed>(rows: Seq<T>) -> Seq<i64> {
    Seq::new(rows.len(), |i: int| rows[i].key())
}

/// The test that a row's book is one of `books`.
pub open spec fn book_is_among<T: BookRef>(books: Seq<i64>) -> spec_fn(T) -> bool {
    |row: T| books.contains(row.book())
}

/// The test that a row's book is not `book`.
pub open spec fn book_is_not<T: BookRef>(book: i64) -> spec_fn(T) -> bool {
    |row: T| row.book() != book
}

/// No id in `rows` is above `largest_key(rows)`.
pub proof fn lemma_largest_key_bounds<T: Keyed>(rows: Seq<T>)
    ensures
        largest_key(rows) >= 0,
        forall|i: int| 0 <= i < rows.len() ==> (#[trigger] rows[i]).key() <= largest_key(rows),
    decreases rows.len(),
{
    if rows.len() > 0 {
        lemma_largest_key_bounds(rows.drop_last());
        assert forall|i: int| 0 <= i < rows.len() implies (#[trigger] rows[i]).key()
            <= largest_key(rows) by {
            if i < rows.len() - 1 {
                assert(rows.drop_last()[i] == rows[i]);
            }
        }
    }
}

/// A sequence whose items all pass a test is its own filter.
pub proof fn lemma_filter_keeps_all<T>(s: Seq<T>, p: spec_fn(T) -> bool)
    requires
        forall|i: int| 0 <= i < s.len() ==> p(#[trigger] s[i]),
    ensures
        s.filter(p) == s,
    decreases s.len(),
{
    reveal(Seq::filter);
    if s.len() > 0 {
        assert forall|i: int| 0 <= i < s.drop_last().len() implies p(
            #[trigger] s.drop_last()[i],
        ) by {
            assert(s.drop_last()[i] == s[i]);
        }
        lemma_filter_keeps_all(s.drop_last(), p);
        assert(s.drop_last().push(s.last()) =~= s);
    }
}

/// Filtering twice by one test is filtering once.
pub proof fn lemma_filter_twice<T>(s: Seq<T>, p: spec_fn(T) -> bool)
    ensures
        s.filter(p).filter(p) == s.filter(p),
{
    let f = s.filter(p);
    assert forall|i: int| 0 <= i < f.len() implies p(#[trigger] f[i]) by {
        s.lemma_filter_pred(p, i);
    }
    lemma_filter_keeps_all(f, p);
}

/// Every item of a filter passes the test and comes from the sequence.
pub proof fn lemma_filter_members<T>(s: Seq<T>, p: spec_fn(T) -> bool)
    ensures
        forall|i: int| 0 <= i < s.filter(p).len() ==> p(#[trigger] s.filter(p)[i]) && s.contains(
            s.filter(p)[i],
        ),
        forall|i: int| 0 <= i < s.len() && p(s[i]) ==> s.filter(p).contains(#[trigger] s[i]),
        s.filter(p).len() <= s.len(),
    decreases s.len(),
{
    reveal(Seq::filter);
    if s.len() > 0 {
        let d = s.drop_last();
        lemma_filter_members(d, p);
        let f = s.filter(p);
        assert forall|i: int| 0 <= i < f.len() implies p(#[trigger] f[i]) && s.contains(f[i]) by {
            if i < d.filter(p).len() {
                assert(f[i] == d.filter(p)[i]);
                assert(d.contains(f[i]));
                let k = choose|k: int| 0 <= k < d.len() && d[k] == f[i];
                assert(s[k] == f[i]);
            } else {
                assert(f[i] == s.last());
                assert(s[s.len() - 1] == f[i]);
            }
        }
        assert forall|i: int| 0 <= i < s.len() && p(s[i]) implies f.contains(#[trigger] s[i]) by {
            if i < d.len() {
                assert(d[i] == s[i]);
                assert(d.filter(p).contains(d[i]));
                let k = choose|k: int| 0 <= k < d.filter(p).len() && d.filter(p)[k] == d[i];
                assert(f[k] == s[i]);
            } else {
                assert(f[f.len() - 1] == s[i]);
            }
        }
    }
}

/// Removes from `rows` each row whose mark is `false`, keeping the order of
/// the others.
pub(crate) fn keep_marked<T>(rows: &mut Vec<T>, marks: &Vec<bool>, Ghost(p): Ghost<spec_fn(T) -> bool>)
    requires
        marks@.len() == old(rows)@.len(),
        forall|i: int| 0 <= i < marks@.len() ==> marks@[i] == p(#[trigger] old(rows)@[i]),
    ensures
        final(rows)@ == old(rows)@.filter(p),
{
    let ghost orig = rows@;
    let mut i: usize = rows.len();
    proof {
        reveal(Seq::filter);
        assert(orig.skip(i as int).filter(p) =~= Seq::<T>::empty());
        assert(rows@ =~= orig.take(i as int) + orig.skip(i as int).filter(p));
    }
    while i > 0
        invariant
            i <= orig.len() == marks@.len(),
            forall|k: int| 0 <= k < marks@.len() ==> marks@[k] == p(#[trigger] orig[k]),
            rows@ == orig.take(i as int) + orig.skip(i as int).filter(p),
        decreases i,
    {
        i -= 1;
        let ghost before = rows@;
        if !marks[i] {
            rows.remove(i);
        }
        proof {
            reveal_with_fuel(Seq::filter, 3);
            let one = seq![orig[i as int]];
            assert(one.drop_last() =~= Seq::<T>::empty());
            assert(one.drop_last().filter(p) =~= Seq::<T>::empty());
            assert(one.last() == orig[i as int]);
            assert(one.filter(p) =~= if p(orig[i as int]) {
                one
            } else {
                Seq::<T>::empty()
            });
            assert(orig.skip(i as int) =~= one + orig.skip(i + 1));
            Seq::filter_distributes_over_add(one, orig.skip(i + 1), p);
            assert(orig.take(i + 1) =~= orig.take(i as int) + one);
            assert(rows@ =~= orig.take(i as int) + orig.skip(i as int).filter(p));
        }
    }
    proof {
        assert(orig.skip(0) =~= orig);
        assert(orig.take(0) + orig.filter(p) =~= orig.filter(p));
    }
}

/// True when `x` is one of `ids`.
pub fn holds(ids: &Vec<i64>, x: i64) -> (r: bool)
    ensures
        r == ids@.contains(x),
{
    let mut i: usize = 0;
    while i < ids.len()
        invariant
            i <= ids@.len(),
            forall|j: int| 0 <= j < i ==> ids@[j] != x,
        decreases ids@.len() - i,
    {
        if ids[i] == x {
            return true;
        }
        i += 1;
    }
    false
}

/// The ids of `rows`, in order.
pub fn ids_of<T: Keyed>(rows: &Vec<T>) -> (r: Vec<i64>)
    ensures
        r@ == keys(rows@),
{
    let mut out: Vec<i64> = Vec::new();
    let mut i: usize = 0;
    while i < rows.len()
        invariant
            i <= rows@.len(),
            out@ == keys(rows@).take(i as int),
        decreases rows@.len() - i,
    {
        out.push(rows[i].id());
        proof {
            assert(out@ =~= keys(rows@).take(i + 1));
        }
        i += 1;
    }
    proof {
        assert(keys(rows@).take(rows@.len() as int) =~= keys(rows@));
    }
    out
}

/// The largest id among `rows`, and 0 where there is none above 0.
pub fn largest_id<T: Keyed>(rows: &Vec<T>) -> (r: i64)
    ensures
        r == largest_key(rows@),
{
    let mut best: i64 = 0;
    let mut i: usize = 0;
    while i < rows.len()
        invariant
            i <= rows@.len(),
            best == largest_key(rows@.take(i as int)),
        decreases rows@.len() - i,
    {
        proof {
            assert(rows@.take(i + 1).drop_last() =~= rows@.take(i as int));
        }
        let k = rows[i].id();
        if k > best {
            best = k;
        }
        i += 1;
    }
    proof {
        assert(rows@.take(rows@.len() as int) =~= rows@);
    }
    best
}

/// Removes the rows whose book is not one of `books`, and says how many left.
pub fn drop_rows_of_missing_books<T: BookRef>(rows: &mut Vec<T>, books: &Vec<i64>) -> (removed:
    usize)
    ensures
        final(rows)@ == old(rows)@.filter(book_is_among::<T>(books@)),
        removed == old(rows)@.len() - final(rows)@.len(),
{
    let n: usize = rows.len();
    let mut marks: Vec<bool> = Vec::new();
    let mut i: usize = 0;
    while i < n
        invariant
            i <= n == rows@.len(),
            rows@ == old(rows)@,
            marks@.len() == i,
            forall|j: int| 0 <= j < i ==> marks@[j] == book_is_among::<T>(books@)(#[trigger] rows@[j]),
        decreases n - i,
    {
        marks.push(holds(books, rows[i].book_id()));
        i += 1;
    }
    keep_marked(rows, &marks, Ghost(book_is_among::<T>(books@)));
    proof {
        lemma_filter_members(old(rows)@, book_is_among::<T>(books@));
    }
    n - rows.len()
}

/// Removes the rows of one book, and says how many left.
pub fn drop_rows_of_book<T: BookRef>(rows: &mut Vec<T>, book: i64) -> (removed: usize)
    ensures
        final(rows)@ == old(rows)@.filter(book_is_not::<T>(book)),
        removed == old(rows)@.len() - final(rows)@.len(),
{
    let n: usize = rows.len();
    let mut marks: Vec<bool> = Vec::new();
    let mut i: usize = 0;
    while i < n
        invariant
            i <= n == rows@.len(),
            rows@ == old(rows)@,
            marks@.len() == i,
            forall|j: int| 0 <= j < i ==> marks@[j] == book_is_not::<T>(book)(#[trigger] rows@[j]),
        decreases n - i,
    {
        marks.push(rows[i].book_id() != book);
        i += 1;
    }
    keep_marked(rows, &marks, Ghost(book_is_not::<T>(book)));
    proof {
        lemma_filter_members(old(rows)@, book_is_not::<T>(book));
    }
    n - rows.len()
}


/// The index of the first item of `s` that passes `p`, and the length of `s`
/// where none does.
pub open spec fn first_where<T>(s: Seq<T>, p: spec_fn(T) -> bool) -> int
    decreases s.len(),
{
    if s.len() == 0 {
        0
    } else {
        let f = first_where(s.drop_last(), p);
        if f < s.len() - 1 {
            f
        } else if p(s.last()) {
            s.len() - 1
        } else {
            s.len() as int
        }
    }
}

/// `first_where` is the least index that passes the test.
pub proof fn lemma_first_where<T>(s: Seq<T>, p: spec_fn(T) -> bool)
    ensures
        0 <= first_where(s, p) <= s.len(),
        first_where(s, p) < s.len() ==> p(s[first_where(s, p)]),
        forall|j: int| 0 <= j < first_where(s, p) ==> !p(#[trigger] s[j]),
    decreases s.len(),
{
    if s.len() > 0 {
        let d = s.drop_last();
        lemma_first_where(d, p);
        let f = first_where(d, p);
        if f < d.len() {
            assert(d[f] == s[f]);
        }
        assert forall|j: int| 0 <= j < first_where(s, p) implies !p(#[trigger] s[j]) by {
            if j < d.len() {
                assert(d[j] == s[j]);
            }
        }
    }
}


/// Removes the rows whose book is one of `gone`; `p` is the test that the
/// rows that stay pass.
pub(crate) fn drop_rows_of_books<T: BookRef>(
    rows: &mut Vec<T>,
    gone: &Vec<i64>,
    Ghost(p): Ghost<spec_fn(T) -> bool>,
) -> (removed: usize)
    requires
        forall|row: T| #[trigger] p(row) == !gone@.contains(row.book()),
    ensures
        final(rows)@ == old(rows)@.filter(p),
        removed == old(rows)@.len() - final(rows)@.len(),
{
    let n: usize = rows.len();
    let mut marks: Vec<bool> = Vec::new();
    let mut i: usize = 0;
    while i < n
        invariant
            i <= n == rows@.len(),
            rows@ == old(rows)@,
            marks@.len() == i,
            forall|row: T| #[trigger] p(row) == !gone@.contains(row.book()),
            forall|j: int| 0 <= j < i ==> marks@[j] == p(#[trigger] rows@[j]),
        decreases n - i,
    {
        marks.push(!holds(gone, rows[i].book_id()));
        i += 1;
    }
    keep_marked(rows, &marks, Ghost(p));
    proof {
        lemma_filter_members(old(rows)@, p);
    }
    n - rows.len()
}


/// The ids of the rows whose mark is `false`.
pub fn keys_of_unmarked<T: Keyed>(rows: &Vec<T>, marks: &Vec<bool>) -> (r: Vec<i64>)
    requires
        marks@.len() == rows@.len(),
    ensures
        forall|id: i64|
            r@.contains(id) <==> exists|i: int|
                0 <= i < rows@.len() && (#[trigger] rows@[i]).key() == id && !marks@[i],
{
    let mut out: Vec<i64> = Vec::new();
    let mut i: usize = 0;
    while i < rows.len()
        invariant
            i <= rows@.len() == marks@.len(),
            forall|id: i64|
                out@.contains(id) <==> exists|k: int|
                    0 <= k < i && (#[trigger] rows@[k]).key() == id && !marks@[k],
        decreases rows@.len() - i,
    {
        let ghost before = out@;
        if !marks[i] {
            out.push(rows[i].id());
        }
        proof {
            assert forall|id: i64|
                out@.contains(id) <==> exists|k: int|
                    0 <= k < i + 1 && (#[trigger] rows@[k]).key() == id && !marks@[k] by {
                if out@.contains(id) {
                    let m = choose|m: int| 0 <= m < out@.len() && out@[m] == id;
                    if m < before.len() {
                        assert(before[m] == id);
                        assert(before.contains(id));
                    } else {
                        assert(rows@[i as int].key() == id);
                    }
                }
                if exists|k: int| 0 <= k < i + 1 && (#[trigger] rows@[k]).key() == id && !marks@[k] {
                    let k = choose|k: int|
                        0 <= k < i + 1 && (#[trigger] rows@[k]).key() == id && !marks@[k];
                    if k < i {
                        assert(before.contains(id));
                        let m = choose|m: int| 0 <= m < before.len() && before[m] == id;
                        assert(out@[m] == id);
                    } else {
                        assert(out@[out@.len() - 1] == id);
                    }
                }
            }
        }
        i += 1;
    }
    out
}


/// Removes the rows whose reading state is one of `gone`; `p` is the test
/// that the rows that stay pass.
pub(crate) fn drop_rows_of_states<T: StateRef>(
    rows: &mut Vec<T>,
    gone: &Vec<i64>,
    Ghost(p): Ghost<spec_fn(T) -> bool>,
) -> (removed: usize)
    requires
        forall|row: T| #[trigger] p(row) == !gone@.contains(row.state()),
    ensures
        final(rows)@ == old(rows)@.filter(p),
        removed == old(rows)@.len() - final(rows)@.len(),
{
    let n: usize = rows.len();
    let mut marks: Vec<bool> = Vec::new();
    let mut i: usize = 0;
    while i < n
        invariant
            i <= n == rows@.len(),
            rows@ == old(rows)@,
            marks@.len() == i,
            forall|row: T| #[trigger] p(row) == !gone@.contains(row.state()),
            forall|j: int| 0 <= j < i ==> marks@[j] == p(#[trigger] rows@[j]),
        decreases n - i,
    {
        marks.push(!holds(gone, rows[i].state_id()));
        i += 1;
    }
    keep_marked(rows, &marks, Ghost(p));
    proof {
        lemma_filter_members(old(rows)@, p);
    }
    n - rows.len()
}


/// What is found in a table is found in the table with one row more.
pub proof fn lemma_found_after_push<T>(before: Seq<T>, after: Seq<T>, p: spec_fn(T) -> bool)
    requires
        after.len() == before.len() + 1,
        after.drop_last() == before,
        first_where(before, p) < before.len(),
    ensures
        first_where(after, p) < after.len(),
{
    lemma_first_where(before, p);
    lemma_first_where(after, p);
    let f = first_where(before, p);
    assert(after[f] == after.drop_last()[f]);
}


/// Two tables with the same ids, row by row, have the same largest id.
pub proof fn lemma_largest_key_of_same_ids<T: Keyed>(a: Seq<T>, b: Seq<T>)
    requires
        a.len() == b.len(),
        forall|i: int| 0 <= i < a.len() ==> (#[trigger] a[i]).key() == b[i].key(),
    ensures
        largest_key(a) == largest_key(b),
    decreases a.len(),
{
    if a.len() > 0 {
        assert forall|i: int| 0 <= i < a.drop_last().len() implies (#[trigger] a.drop_last()[i]).key()
            == b.drop_last()[i].key() by {
            assert(a.drop_last()[i] == a[i]);
            assert(b.drop_last()[i] == b[i]);
        }
        lemma_largest_key_of_same_ids(a.drop_last(), b.drop_last());
        assert(a[a.len() - 1].key() == b[a.len() - 1].key());
    }
}


/// The number of marks that are `true`.
pub open spec fn count_marked(marks: Seq<bool>) -> nat
    decreases marks.len(),
{
    if marks.len() == 0 {
        0
    } else {
        count_marked(marks.drop_last()) + if marks.last() {
            1nat
        } else {
            0nat
        }
    }
}


/// Where no two items of a sequence pass a test, its filter holds the first
/// item that passes, and nothing else.
pub proof fn lemma_single_match<T>(s: Seq<T>, p: spec_fn(T) -> bool)
    requires
        forall|i: int, j: int| 0 <= i < j < s.len() ==> !(p(#[trigger] s[i]) && p(#[trigger] s[j])),
    ensures
        first_where(s, p) < s.len() ==> s.filter(p) == seq![s[first_where(s, p)]],
        first_where(s, p) >= s.len() ==> s.filter(p).len() == 0,
    decreases s.len(),
{
    reveal(Seq::filter);
    lemma_first_where(s, p);
    if s.len() > 0 {
        let d = s.drop_last();
        assert forall|i: int, j: int| 0 <= i < j < d.len() implies !(p(#[trigger] d[i]) && p(
            #[trigger] d[j],
        )) by {
            assert(d[i] == s[i] && d[j] == s[j]);
        }
        lemma_single_match(d, p);
        lemma_first_where(d, p);
        let f = first_where(d, p);
        if f < d.len() {
            assert(d[f] == s[f]);
            assert(s[s.len() - 1] == s.last());
            assert(!p(s.last()));
        } else if p(s.last()) {
            assert(d.filter(p) =~= Seq::<T>::empty());
            assert(s.filter(p) =~= seq![s.last()]);
        }
    }
}

} // verus!
