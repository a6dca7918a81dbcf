use vstd::prelude::*;

verus! {

/// The values of the records that decoded, in their order.
pub open spec fn decoded_values<T, E>(s: Seq<Result<T, E>>) -> Seq<T>
    decreases s.len(),
{
    if s.len() == 0 {
        Seq::empty()
    } else {
        let r = decoded_values(s.drop_last());
        match s.last() {
            Ok(v) => r.push(v),
            Err(_) => r,
        }
    }
}

/// The items of `v` in reverse order.
fn reversed<T>(v: Vec<T>) -> (r: Vec<T>)
    ensures
        r@.len() == v@.len(),
        forall|j: int| 0 <= j < r@.len() ==> #[trigger] r@[j] == v@[v@.len() - 1 - j],
{
    let ghost all = v@;
    let n = v.len();
    let mut rest = v;
    let mut rev: Vec<T> = Vec::new();
    while rest.len() > 0
        invariant
            all.len() == n,
            rest@.len() + rev@.len() == n,
            rest@ == all.subrange(0, rest@.len() as int),
            forall|j: int| 0 <= j < rev@.len() ==> #[trigger] rev@[j] == all[n - 1 - j],
        decreases rest@.len(),
    {
        let x = rest.pop().unwrap();
        rev.push(x);
        assert(rest@ =~= all.subrange(0, rest@.len() as int));
    }
    rev
}

/// Keeps the records of a file that decoded and drops the others: a record
/// that fails to decode is skipped, not fatal to its file. Returns the
/// decoded values in order and how many records were skipped.
pub fn keep_decoded<T, E>(results: Vec<Result<T, E>>) -> (r: (Vec<T>, usize))
    ensures
        r.0@ == decoded_values(results@),
        r.0@.len() + r.1 == results@.len(),
{
    let ghost all = results@;
    let n = results.len();
    let mut rev = reversed(results);
    let mut out: Vec<T> = Vec::new();
    let mut skipped: usize = 0;
    assert(all.subrange(0, 0) =~= Seq::<Result<T, E>>::empty());
    while rev.len() > 0
        invariant
            all.len() == n,
            rev@.len() <= n,
            forall|j: int| 0 <= j < rev@.len() ==> #[trigger] rev@[j] == all[n - 1 - j],
            out@ == decoded_values(all.subrange(0, n - rev@.len())),
            out@.len() + skipped == n - rev@.len(),
        decreases rev@.len(),
    {
        let k = n - rev.len();
        let ghost cur = all.subrange(0, k + 1);
        assert(cur.drop_last() =~= all.subrange(0, k as int));
        assert(rev@[rev@.len() - 1] == all[k as int]);
        let x = rev.pop().unwrap();
        match x {
            Ok(v) => {
                out.push(v);
            },
            Err(_) => {
                skipped = skipped + 1;
            },
        }
    }
    assert(all.subrange(0, n as int) =~= all);
    (out, skipped)
}

/// The rows of `s` bound for table `t`, in their order.
pub open spec fn rows_for<R>(s: Seq<(usize, R)>, t: int) -> Seq<R>
    decreases s.len(),
{
    if s.len() == 0 {
        Seq::empty()
    } else if s.last().0 == t {
        rows_for(s.drop_last(), t).push(s.last().1)
    } else {
        rows_for(s.drop_last(), t)
    }
}

/// Rows that follow earlier rows reach each table after them, unchanged.
pub proof fn lemma_rows_for_append<R>(first: Seq<(usize, R)>, second: Seq<(usize, R)>, t: int)
    ensures
        rows_for(first + second, t) == rows_for(first, t) + rows_for(second, t),
    decreases second.len(),
{
    if second.len() == 0 {
        assert(first + second =~= first);
        assert(rows_for(first, t) + rows_for(second, t) =~= rows_for(first, t));
    } else {
        lemma_rows_for_append(first, second.drop_last(), t);
        assert((first + second).drop_last() =~= first + second.drop_last());
        if second.last().0 == t {
            assert(rows_for(first, t) + rows_for(second.drop_last(), t).push(second.last().1)
                =~= (rows_for(first, t) + rows_for(second.drop_last(), t)).push(second.last().1));
        }
    }
}

/// Importing a file's rows a second time only duplicates them: each table
/// receives its rows of the batch twice over, and nothing else changes.
pub proof fn lemma_duplicate_batch<R>(rows: Seq<(usize, R)>, t: int)
    ensures
        rows_for(rows + rows, t) == rows_for(rows, t) + rows_for(rows, t),
        rows_for(rows + rows, t).len() == 2 * rows_for(rows, t).len(),
{
    lemma_rows_for_append(rows, rows, t);
}

/// Buckets rows by destination table, so that each table receives its rows
/// in one batch. Each row carries the index of its table among `tables`;
/// the rows of each table keep their order, and a row whose index names no
/// table is dropped.
pub fn bucket_rows<R>(rows: Vec<(usize, R)>, tables: usize) -> (r: Vec<Vec<R>>)
    ensures
        r@.len() == tables,
        forall|t: int| 0 <= t < tables ==> (#[trigger] r@[t])@ == rows_for(rows@, t),
{
    let ghost all = rows@;
    let n = rows.len();
    let mut out: Vec<Vec<R>> = Vec::new();
    let mut k: usize = 0;
    while k < tables
        invariant
            k <= tables,
            out@.len() == k,
            forall|t: int| 0 <= t < k ==> (#[trigger] out@[t])@ == Seq::<R>::empty(),
        decreases tables - k,
    {
        out.push(Vec::new());
        k = k + 1;
    }
    let mut rev = reversed(rows);
    assert forall|t: int| 0 <= t < tables implies (#[trigger] out@[t])@ == rows_for(
        all.subrange(0, 0),
        t,
    ) by {
        assert(all.subrange(0, 0) =~= Seq::<(usize, R)>::empty());
    }
    while rev.len() > 0
        invariant
            all.len() == n,
            rev@.len() <= n,
            out@.len() == tables,
            forall|j: int| 0 <= j < rev@.len() ==> #[trigger] rev@[j] == all[n - 1 - j],
            forall|t: int|
                0 <= t < tables ==> (#[trigger] out@[t])@ == rows_for(
                    all.subrange(0, n - rev@.len()),
                    t,
                ),
        decreases rev@.len(),
    {
        let i = n - rev.len();
        let ghost pre = all.subrange(0, i as int);
        let ghost cur = all.subrange(0, i + 1);
        assert(cur.drop_last() =~= pre);
        assert(rev@[rev@.len() - 1] == all[i as int]);
        let (t, row) = rev.pop().unwrap();
        if t < tables {
            let ghost before = out@;
            let mut batch = out.remove(t);
            batch.push(row);
            out.insert(t, batch);
            assert forall|u: int| 0 <= u < tables implies (#[trigger] out@[u])@ == rows_for(cur, u) by {
                if u != t {
                    assert(out@[u] == before[u]);
                }
            }
        }
    }
    assert(all.subrange(0, n as int) =~= all);
    out
}

} // verus!
