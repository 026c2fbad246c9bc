//! Connection assembler: the Relay-style shape a page is surfaced in.
//!
//! A page becomes a connection of edges — one per row, each carrying the
//! node and the token of its sort key — plus the page flags. This is a pure
//! transformation; an edge's cursor is exactly what `encode_key` makes of
//! the row's key, so a client can resume after any row of the page.

use vstd::prelude::*;

use crate::codec::Cursor;
use crate::codec::encode_key;
use crate::codec::token_of;
use crate::pagination::Page;
use crate::pagination::PaginationError;
use crate::pagination::SortKeyed;
use crate::pagination::cursor_invalid;
use crate::pagination::cursor_names_key;
use crate::pagination::is_page_of;
use crate::pagination::page;
use crate::pagination::strictly_sorted_by_key;

verus! {

/// One row of a page as a client sees it: the node and the token to resume
/// after it.
pub struct Edge<T> {
    pub node: T,
    pub cursor: Cursor,
}

/// Forward and backward availability flags of a page.
#[derive(Clone, Copy, Debug, PartialEq, Eq, Structural)]
pub struct PageInfo {
    pub has_next_page: bool,
    pub has_previous_page: bool,
}

/// A page in the shape exposed to API clients.
pub struct Connection<T> {
    pub edges: Vec<Edge<T>>,
    pub page_info: PageInfo,
}

/// The edges are exactly the rows, in order, each under the token of its key.
pub open spec fn edges_of<T: SortKeyed>(edges: Seq<Edge<T>>, rows: Seq<T>) -> bool {
    &&& edges.len() == rows.len()
    &&& forall|i: int|
        0 <= i < rows.len() ==> (#[trigger] edges[i]).node == rows[i] && edges[i].cursor@
            == token_of(rows[i].key_spec())
}

/// What a connection returned for a page request promises.
pub open spec fn is_connection_of<T: SortKeyed>(
    c: Connection<T>,
    rows: Seq<T>,
    bound: Option<Seq<char>>,
    first: u64,
) -> bool {
    &&& edges_of(c.edges@, crate::pagination::page_rows_spec(rows, bound, first))
    &&& c.page_info.has_next_page == (crate::pagination::matching(rows, bound).len() > first)
    &&& c.page_info.has_previous_page == false
}

/// Wraps a page of rows into the edge/page-info shape: one edge per row,
/// holding the row and the token of its sort key.
pub fn assemble<T: SortKeyed>(page: Page<T>) -> (c: Connection<T>)
    ensures
        edges_of(c.edges@, page.rows@),
        c.page_info.has_next_page == page.has_next_page,
        c.page_info.has_previous_page == page.has_previous_page,
{
    let Page { rows, has_next_page, has_previous_page } = page;
    let ghost orig = rows@;
    let mut rows = rows;
    let mut edges: Vec<Edge<T>> = Vec::new();
    proof {
        assert(orig.skip(0) =~= orig);
    }
    while rows.len() > 0
        invariant
            edges@.len() + rows@.len() == orig.len(),
            rows@ == orig.skip(edges@.len() as int),
            forall|j: int|
                0 <= j < edges@.len() ==> (#[trigger] edges@[j]).node == orig[j]
                    && edges@[j].cursor@ == token_of(orig[j].key_spec()),
        decreases rows@.len(),
    {
        let ghost n = edges@.len() as int;
        let row = rows.remove(0);
        proof {
            assert(orig.skip(n)[0] == orig[n]);
            assert(row == orig[n]);
            assert(orig.skip(n).drop_first() =~= orig.skip(n + 1));
        }
        let cursor = encode_key(row.key().as_str());
        edges.push(Edge { node: row, cursor });
    }
    Connection { edges, page_info: PageInfo { has_next_page, has_previous_page } }
}

/// Produces one connection for a page request: the page of rows above the
/// cursor (all rows, with no cursor), cut off at `first`, as edges with
/// resume tokens, plus the availability flags. Inputs are rejected exactly
/// as `page` rejects them.
pub fn paginate<T: SortKeyed>(
    rows: Vec<T>,
    first: u64,
    after: Option<&Cursor>,
    max_first: u64,
) -> (r: Result<Connection<T>, PaginationError>)
    requires
        strictly_sorted_by_key(rows@),
    ensures
        r is Err <==> !(1 <= first <= max_first) || cursor_invalid(after),
        r matches Err(e) ==> (e == PaginationError::InvalidPageSize <==> !(1 <= first
            <= max_first)),
        r matches Err(e) ==> (e == PaginationError::InvalidCursor <==> 1 <= first <= max_first),
        r matches Ok(c) ==> (after is None ==> is_connection_of(c, rows@, None, first)),
        forall|k: Seq<char>|
            (#[trigger] cursor_names_key(after, k) && 1 <= first <= max_first) ==> r is Ok
                && is_connection_of(r->Ok_0, rows@, Some(k), first),
{
    let ghost rows_view = rows@;
    match page(rows, first, after, max_first) {
        Err(e) => Err(e),
        Ok(p) => {
            let ghost p_view = p;
            let c = assemble(p);
            proof {
                assert forall|k: Seq<char>|
                    #[trigger] cursor_names_key(after, k) && 1 <= first
                        <= max_first implies is_connection_of(c, rows_view, Some(k), first) by {
                    assert(is_page_of(p_view, rows_view, Some(k), first));
                }
            }
            Ok(c)
        },
    }
}

} // verus!
