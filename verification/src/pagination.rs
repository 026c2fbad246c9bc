//! Paginator: one page of an ordered, uniquely-keyed collection.
//!
//! A page request carries a page size `first` and an optional cursor. The
//! paginator scans the collection in ascending key order, keeps only the rows
//! whose key is strictly greater than the cursor's key (an exclusive lower
//! bound, so the boundary row is never returned twice and rows inserted at or
//! below the cursor never shift the page), takes at most `first` rows, and
//! reports whether a further row exists by looking one row past the page.

use vstd::prelude::*;

use crate::codec::Cursor;
use crate::codec::InvalidCursor;
use crate::codec::decode;
use crate::codec::token_of;
use crate::codec::valid_token;
use crate::order::lex_lt;
use crate::order::str_lt;
use crate::order::lemma_lex_lt_irreflexive;
use crate::order::lemma_lex_lt_transitive;
use crate::order::lemma_lex_lt_asymmetric;

verus! {

/// A row of a paginated collection: everything with a designated sort-key
/// field, a value unique and totally ordered within its collection.
pub trait SortKeyed: Sized {
    /// The sort-key value of this row, as contracts speak of it.
    spec fn key_spec(&self) -> Seq<char>;

    /// The sort-key field of this row.
    fn key(&self) -> (k: &String)
        ensures
            k@ == self.key_spec(),
    ;
}

/// The collection invariant the backing store enforces: rows come in strictly
/// ascending key order, which makes keys unique.
pub open spec fn strictly_sorted_by_key<T: SortKeyed>(s: Seq<T>) -> bool {
    forall|i: int, j: int|
        0 <= i < j < s.len() ==> lex_lt((#[trigger] s[i]).key_spec(), (#[trigger] s[j]).key_spec())
}

/// Whether a row lies above the resume bound: with no bound every row is
/// admitted, a bound admits exactly the rows whose key is strictly greater.
pub open spec fn row_matches<T: SortKeyed>(row: T, bound: Option<Seq<char>>) -> bool {
    match bound {
        None => true,
        Some(b) => lex_lt(b, row.key_spec()),
    }
}

/// The rows of a collection that lie above the bound, in collection order.
pub open spec fn matching<T: SortKeyed>(rows: Seq<T>, bound: Option<Seq<char>>) -> Seq<T>
    decreases rows.len(),
{
    if rows.len() == 0 {
        Seq::empty()
    } else {
        let rest = matching(rows.drop_first(), bound);
        if row_matches(rows[0], bound) {
            seq![rows[0]] + rest
        } else {
            rest
        }
    }
}

/// Pagination failures. Every one is request-scoped: it is returned to the
/// caller, never a crash.
#[derive(Clone, Copy, Debug, PartialEq, Eq, Structural)]
pub enum PaginationError {
    /// The resume token is not one the codec produced.
    InvalidCursor,
    /// `first` is zero or above the configured maximum.
    InvalidPageSize,
    /// The collection access capability failed transiently; the storage
    /// adapter surfaces it, and the caller may retry the whole request.
    StorageUnavailable,
}

/// One page: at most `first` rows in ascending key order, and whether a
/// further row exists. Backward pagination is out of scope, so
/// `has_previous_page` is conservatively `false`.
pub struct Page<T> {
    pub rows: Vec<T>,
    pub has_next_page: bool,
    pub has_previous_page: bool,
}

/// The rows a page holds: the matching rows, cut off at `first`.
pub open spec fn page_rows_spec<T: SortKeyed>(
    rows: Seq<T>,
    bound: Option<Seq<char>>,
    first: u64,
) -> Seq<T> {
    let m = matching(rows, bound);
    if m.len() <= first {
        m
    } else {
        m.take(first as int)
    }
}

/// What `page` promises of a returned page.
pub open spec fn is_page_of<T: SortKeyed>(
    p: Page<T>,
    rows: Seq<T>,
    bound: Option<Seq<char>>,
    first: u64,
) -> bool {
    &&& p.rows@ == page_rows_spec(rows, bound, first)
    &&& p.has_next_page == (matching(rows, bound).len() > first)
    &&& p.has_previous_page == false
}

/// The view of an optional key reference.
pub open spec fn bound_of(after_key: Option<&String>) -> Option<Seq<char>> {
    match after_key {
        None => None,
        Some(s) => Some(s@),
    }
}

/// A cursor was handed in and is not one the codec produced.
pub open spec fn cursor_invalid(after: Option<&Cursor>) -> bool {
    match after {
        None => false,
        Some(c) => !valid_token(c@),
    }
}

/// The cursor handed in is the token of key `k`.
pub open spec fn cursor_names_key(after: Option<&Cursor>, k: Seq<char>) -> bool {
    match after {
        None => false,
        Some(c) => c@ == token_of(k),
    }
}

proof fn lemma_matching_len0<T: SortKeyed>(s: Seq<T>, bound: Option<Seq<char>>)
    requires
        s.len() == 0,
    ensures
        matching(s, bound) == Seq::<T>::empty(),
{
}

proof fn lemma_matching_snoc<T: SortKeyed>(s: Seq<T>, x: T, bound: Option<Seq<char>>)
    ensures
        matching(s.push(x), bound) == if row_matches(x, bound) {
            matching(s, bound).push(x)
        } else {
            matching(s, bound)
        },
    decreases s.len(),
{
    let sp = s.push(x);
    assert(sp.len() == s.len() + 1);
    if s.len() == 0 {
        assert(sp.drop_first() =~= Seq::<T>::empty());
        assert(sp[0] == x);
        lemma_matching_len0(sp.drop_first(), bound);
        lemma_matching_len0(s, bound);
        if row_matches(x, bound) {
            assert(seq![x] + Seq::<T>::empty() =~= matching(s, bound).push(x));
        }
    } else {
        assert(sp.drop_first() =~= s.drop_first().push(x));
        assert(sp[0] == s[0]);
        lemma_matching_snoc(s.drop_first(), x, bound);
        if row_matches(s[0], bound) && row_matches(x, bound) {
            assert(seq![s[0]] + matching(s.drop_first(), bound).push(x) =~= (seq![s[0]]
                + matching(s.drop_first(), bound)).push(x));
        }
    }
}

proof fn lemma_matching_app<T: SortKeyed>(s1: Seq<T>, s2: Seq<T>, bound: Option<Seq<char>>)
    ensures
        matching(s1 + s2, bound) == matching(s1, bound) + matching(s2, bound),
    decreases s1.len(),
{
    if s1.len() == 0 {
        assert(s1 + s2 =~= s2);
        assert(matching(s1, bound) + matching(s2, bound) =~= matching(s2, bound));
    } else {
        assert((s1 + s2).drop_first() =~= s1.drop_first() + s2);
        assert((s1 + s2)[0] == s1[0]);
        assert((s1 + s2).len() > 0);
        lemma_matching_app(s1.drop_first(), s2, bound);
        if row_matches(s1[0], bound) {
            assert(seq![s1[0]] + (matching(s1.drop_first(), bound) + matching(s2, bound)) =~= (
            seq![s1[0]] + matching(s1.drop_first(), bound)) + matching(s2, bound));
        }
    }
}

/// Every row of the matching sequence lies above the bound and comes from the
/// collection, and there are no more matching rows than rows.
proof fn lemma_matching_sub<T: SortKeyed>(s: Seq<T>, bound: Option<Seq<char>>)
    ensures
        matching(s, bound).len() <= s.len(),
        forall|i: int|
            0 <= i < matching(s, bound).len() ==> row_matches(
                #[trigger] matching(s, bound)[i],
                bound,
            ),
        forall|i: int|
            0 <= i < matching(s, bound).len() ==> s.contains(#[trigger] matching(s, bound)[i]),
    decreases s.len(),
{
    if s.len() > 0 {
        let d = s.drop_first();
        lemma_matching_sub(d, bound);
        assert forall|i: int| 0 <= i < matching(s, bound).len() implies row_matches(
            #[trigger] matching(s, bound)[i],
            bound,
        ) && s.contains(matching(s, bound)[i]) by {
            let m = matching(s, bound);
            let md = matching(d, bound);
            if row_matches(s[0], bound) {
                assert(m == seq![s[0]] + md);
                if i == 0 {
                    assert(m[0] == s[0]);
                    assert(s.contains(s[0]));
                } else {
                    assert(m[i] == md[i - 1]);
                    assert(d.contains(md[i - 1]));
                    let l = choose|l: int| 0 <= l < d.len() && d[l] == md[i - 1];
                    assert(s[l + 1] == d[l]);
                    assert(s.contains(s[l + 1]));
                }
            } else {
                assert(m == md);
                assert(d.contains(md[i]));
                let l = choose|l: int| 0 <= l < d.len() && d[l] == md[i];
                assert(s[l + 1] == d[l]);
                assert(s.contains(s[l + 1]));
            }
        }
    }
}

/// Filtering by a bound keeps the collection's order.
proof fn lemma_matching_sorted<T: SortKeyed>(s: Seq<T>, bound: Option<Seq<char>>)
    requires
        strictly_sorted_by_key(s),
    ensures
        strictly_sorted_by_key(matching(s, bound)),
    decreases s.len(),
{
    if s.len() > 0 {
        let d = s.drop_first();
        assert forall|i: int, j: int| 0 <= i < j < d.len() implies lex_lt(
            (#[trigger] d[i]).key_spec(),
            (#[trigger] d[j]).key_spec(),
        ) by {
            assert(d[i] == s[i + 1]);
            assert(d[j] == s[j + 1]);
        }
        lemma_matching_sorted(d, bound);
        lemma_matching_sub(d, bound);
        let m = matching(s, bound);
        let md = matching(d, bound);
        if row_matches(s[0], bound) {
            assert(m == seq![s[0]] + md);
            assert forall|i: int, j: int| 0 <= i < j < m.len() implies lex_lt(
                (#[trigger] m[i]).key_spec(),
                (#[trigger] m[j]).key_spec(),
            ) by {
                if i == 0 {
                    assert(m[j] == md[j - 1]);
                    assert(d.contains(md[j - 1]));
                    let l = choose|l: int| 0 <= l < d.len() && d[l] == md[j - 1];
                    assert(s[l + 1] == d[l]);
                    assert(lex_lt(s[0].key_spec(), s[l + 1].key_spec()));
                } else {
                    assert(m[i] == md[i - 1]);
                    assert(m[j] == md[j - 1]);
                }
            }
        }
    }
}

/// Produces the page of rows whose key is strictly greater than `after_key`
/// (all rows, with no key), cut off at `first`; `has_next_page` says whether
/// a matching row beyond the page exists. Rejects `first` outside
/// `1 ..= max_first` with `InvalidPageSize` and succeeds on everything else.
pub fn page_after_key<T: SortKeyed>(
    rows: Vec<T>,
    first: u64,
    after_key: Option<&String>,
    max_first: u64,
) -> (r: Result<Page<T>, PaginationError>)
    requires
        strictly_sorted_by_key(rows@),
    ensures
        r is Ok <==> 1 <= first <= max_first,
        r matches Ok(p) ==> is_page_of(p, rows@, bound_of(after_key), first),
        r matches Ok(p) ==> strictly_sorted_by_key(p.rows@),
        r matches Err(e) ==> e == PaginationError::InvalidPageSize,
{
    if first < 1 || first > max_first {
        return Err(PaginationError::InvalidPageSize);
    }
    let ghost orig = rows@;
    let ghost bound = bound_of(after_key);
    let mut rows = rows;
    let mut out: Vec<T> = Vec::new();
    let mut has_next = false;
    let ghost mut i: int = 0;
    proof {
        assert(orig.take(0) =~= Seq::<T>::empty());
        assert(orig.skip(0) =~= orig);
    }
    while rows.len() > 0 && !has_next
        invariant
            bound == bound_of(after_key),
            0 <= i <= orig.len(),
            !has_next ==> rows@ == orig.skip(i),
            !has_next ==> out@ == matching(orig.take(i), bound) && out@.len() <= first,
            has_next ==> matching(orig, bound).len() > first && out@ == page_rows_spec(
                orig,
                bound,
                first,
            ),
            first >= 1,
        decreases rows@.len() + (if has_next { 0int } else { 1int }),
    {
        let row = rows.remove(0);
        proof {
            assert(orig.skip(i)[0] == orig[i]);
            assert(row == orig[i]);
            assert(orig.skip(i).drop_first() =~= orig.skip(i + 1));
        }
        let is_match: bool;
        match after_key {
            None => {
                is_match = true;
            },
            Some(b) => {
                is_match = str_lt(b.as_str(), row.key().as_str());
                proof {
                    assert(bound == Some(b@));
                }
            },
        }
        proof {
            assert(is_match == row_matches(row, bound));
            assert(orig.take(i + 1) =~= orig.take(i).push(orig[i]));
            lemma_matching_snoc(orig.take(i), orig[i], bound);
        }
        if is_match {
            if (out.len() as u64) < first {
                out.push(row);
                proof {
                    i = i + 1;
                }
            } else {
                has_next = true;
                proof {
                    // The page is full and one more matching row exists: the
                    // matching rows split as the page, this row, and the rest.
                    let m_take = matching(orig.take(i), bound);
                    assert(out@ == m_take);
                    assert(out@.len() == first);
                    assert(orig =~= orig.take(i) + orig.skip(i));
                    lemma_matching_app(orig.take(i), orig.skip(i), bound);
                    let m_skip = matching(orig.skip(i), bound);
                    assert(orig.skip(i).len() > 0);
                    assert(orig.skip(i)[0] == orig[i]);
                    assert(m_skip == seq![orig[i]] + matching(orig.skip(i).drop_first(), bound));
                    assert(matching(orig, bound) == m_take + m_skip);
                    assert(matching(orig, bound).len() > first);
                    assert(matching(orig, bound).take(first as int) =~= m_take);
                }
            }
        } else {
            proof {
                i = i + 1;
            }
        }
    }
    proof {
        if !has_next {
            assert(orig.skip(i).len() == 0);
            assert(i == orig.len());
            assert(orig.take(i) =~= orig);
        }
        lemma_matching_sorted(orig, bound);
        let m = matching(orig, bound);
        let pr = page_rows_spec(orig, bound, first);
        assert forall|a: int, b: int| 0 <= a < b < pr.len() implies lex_lt(
            (#[trigger] pr[a]).key_spec(),
            (#[trigger] pr[b]).key_spec(),
        ) by {
            assert(pr[a] == m[a]);
            assert(pr[b] == m[b]);
        }
    }
    Ok(Page { rows: out, has_next_page: has_next, has_previous_page: false })
}

/// Produces one page, resuming after the row the cursor names.
///
/// `first` out of `1 ..= max_first` is rejected with `InvalidPageSize`; a
/// cursor the codec cannot have produced is rejected with `InvalidCursor`;
/// on every other input the page is owed. On the token of any key `k` — in
/// particular a cursor a previous page handed out, whether or not the row it
/// names still exists — the page holds exactly the rows above `k`.
pub fn page<T: SortKeyed>(
    rows: Vec<T>,
    first: u64,
    after: Option<&Cursor>,
    max_first: u64,
) -> (r: Result<Page<T>, PaginationError>)
    requires
        strictly_sorted_by_key(rows@),
    ensures
        r is Err <==> !(1 <= first <= max_first) || cursor_invalid(after),
        r matches Err(e) ==> (e == PaginationError::InvalidPageSize <==> !(1 <= first
            <= max_first)),
        r matches Err(e) ==> (e == PaginationError::InvalidCursor <==> 1 <= first <= max_first),
        r matches Ok(p) ==> strictly_sorted_by_key(p.rows@),
        r matches Ok(p) ==> (after is None ==> is_page_of(p, rows@, None, first)),
        forall|k: Seq<char>|
            (#[trigger] cursor_names_key(after, k) && 1 <= first <= max_first) ==> r is Ok
                && is_page_of(r->Ok_0, rows@, Some(k), first),
{
    if first < 1 || first > max_first {
        return Err(PaginationError::InvalidPageSize);
    }
    match after {
        None => page_after_key(rows, first, None, max_first),
        Some(c) => {
            match decode(c) {
                Err(InvalidCursor) => Err(PaginationError::InvalidCursor),
                Ok(key) => {
                    let r = page_after_key(rows, first, Some(&key), max_first);
                    proof {
                        assert(c@ == token_of(key@));
                        assert(valid_token(c@));
                    }
                    r
                },
            }
        },
    }
}

/// Resumability: resuming after the last row of a page continues exactly
/// where the page ended. If `m` is what lies above `bound` and a page ended
/// with its `n`-th row, the rows above that row's key are precisely
/// `m.skip(n)` — so a client walking with returned cursors to exhaustion
/// visits every row exactly once, in ascending key order.
pub proof fn lemma_resume_after_last<T: SortKeyed>(
    rows: Seq<T>,
    bound: Option<Seq<char>>,
    n: int,
)
    requires
        strictly_sorted_by_key(rows),
        0 < n <= matching(rows, bound).len(),
    ensures
        matching(rows, Some(matching(rows, bound)[n - 1].key_spec())) == matching(
            rows,
            bound,
        ).skip(n),
{
    let m = matching(rows, bound);
    let k = m[n - 1].key_spec();
    lemma_matching_sub(rows, bound);
    lemma_matching_sorted(rows, bound);
    lemma_matching_nested(rows, bound, k);
    // Within m: the first n rows are at or below k, the rest above it.
    assert(m =~= m.take(n) + m.skip(n));
    lemma_matching_app(m.take(n), m.skip(n), Some(k));
    assert forall|i: int| 0 <= i < m.take(n).len() implies !row_matches(
        #[trigger] m.take(n)[i],
        Some(k),
    ) by {
        assert(m.take(n)[i] == m[i]);
        if i < n - 1 {
            assert(lex_lt(m[i].key_spec(), k));
            lemma_lex_lt_asymmetric(m[i].key_spec(), k);
        } else {
            lemma_lex_lt_irreflexive(k);
        }
    }
    lemma_matching_all_false(m.take(n), Some(k));
    assert forall|i: int| 0 <= i < m.skip(n).len() implies row_matches(
        #[trigger] m.skip(n)[i],
        Some(k),
    ) by {
        assert(m.skip(n)[i] == m[n + i]);
        assert(lex_lt(m[n - 1].key_spec(), m[n + i].key_spec()));
    }
    lemma_matching_all_true(m.skip(n), Some(k));
    assert(matching(m, Some(k)) =~= m.skip(n));
}

/// Empty collection: no row matches any bound, so a page of an empty
/// collection holds no rows and reports no next page — an empty result, not
/// an error.
pub proof fn lemma_empty_collection<T: SortKeyed>(bound: Option<Seq<char>>, first: u64)
    requires
        first >= 1,
    ensures
        page_rows_spec(Seq::<T>::empty(), bound, first) == Seq::<T>::empty(),
        !(matching(Seq::<T>::empty(), bound).len() > first),
{
    lemma_matching_len0(Seq::<T>::empty(), bound);
}

/// Stability under concurrent insert: a row inserted anywhere with a key at
/// or below the cursor's key leaves the next page untouched — nothing
/// reappears and nothing is skipped.
pub proof fn lemma_insert_at_or_below_cursor_preserves_page<T: SortKeyed>(
    rows: Seq<T>,
    at: int,
    row: T,
    k: Seq<char>,
)
    requires
        0 <= at <= rows.len(),
        !lex_lt(k, row.key_spec()),
    ensures
        matching(rows.insert(at, row), Some(k)) == matching(rows, Some(k)),
{
    assert(rows.insert(at, row) =~= rows.take(at) + seq![row] + rows.skip(at));
    lemma_matching_app(rows.take(at) + seq![row], rows.skip(at), Some(k));
    lemma_matching_app(rows.take(at), seq![row], Some(k));
    assert(seq![row].drop_first() =~= Seq::<T>::empty());
    lemma_matching_len0(seq![row].drop_first(), Some(k));
    assert(matching(seq![row], Some(k)) =~= Seq::<T>::empty());
    assert(rows =~= rows.take(at) + rows.skip(at));
    lemma_matching_app(rows.take(at), rows.skip(at), Some(k));
}

/// Restricting to rows above `k` can be done on the whole collection or on
/// the rows already above a looser bound: both give the same rows.
proof fn lemma_matching_nested<T: SortKeyed>(rows: Seq<T>, bound: Option<Seq<char>>, k: Seq<char>)
    requires
        bound matches Some(b) ==> lex_lt(b, k),
    ensures
        matching(rows, Some(k)) == matching(matching(rows, bound), Some(k)),
    decreases rows.len(),
{
    if rows.len() == 0 {
        lemma_matching_len0(rows, bound);
        lemma_matching_len0(rows, Some(k));
        lemma_matching_len0(matching(rows, bound), Some(k));
    } else {
        let d = rows.drop_first();
        lemma_matching_nested(d, bound, k);
        let r0 = rows[0];
        if row_matches(r0, Some(k)) && !row_matches(r0, bound) {
            // key above k but not above the looser bound: impossible.
            let b = bound->Some_0;
            lemma_lex_lt_transitive(b, k, r0.key_spec());
            assert(false);
        }
        if row_matches(r0, bound) {
            let md = matching(d, bound);
            assert(matching(rows, bound) == seq![r0] + md);
            assert((seq![r0] + md)[0] == r0);
            assert((seq![r0] + md).drop_first() =~= md);
            if row_matches(r0, Some(k)) {
                assert(matching(seq![r0] + md, Some(k)) == seq![r0] + matching(md, Some(k)));
            } else {
                assert(matching(seq![r0] + md, Some(k)) == matching(md, Some(k)));
            }
        }
    }
}

proof fn lemma_matching_all_false<T: SortKeyed>(s: Seq<T>, bound: Option<Seq<char>>)
    requires
        forall|i: int| 0 <= i < s.len() ==> !row_matches(#[trigger] s[i], bound),
    ensures
        matching(s, bound) == Seq::<T>::empty(),
    decreases s.len(),
{
    if s.len() > 0 {
        assert forall|i: int| 0 <= i < s.drop_first().len() implies !row_matches(
            #[trigger] s.drop_first()[i],
            bound,
        ) by {
            assert(s.drop_first()[i] == s[i + 1]);
        }
        lemma_matching_all_false(s.drop_first(), bound);
    }
}

proof fn lemma_matching_all_true<T: SortKeyed>(s: Seq<T>, bound: Option<Seq<char>>)
    requires
        forall|i: int| 0 <= i < s.len() ==> row_matches(#[trigger] s[i], bound),
    ensures
        matching(s, bound) == s,
    decreases s.len(),
{
    if s.len() == 0 {
        assert(matching(s, bound) =~= s);
    } else {
        assert forall|i: int| 0 <= i < s.drop_first().len() implies row_matches(
            #[trigger] s.drop_first()[i],
            bound,
        ) by {
            assert(s.drop_first()[i] == s[i + 1]);
        }
        lemma_matching_all_true(s.drop_first(), bound);
        assert(seq![s[0]] + s.drop_first() =~= s);
    }
}

} // verus!
