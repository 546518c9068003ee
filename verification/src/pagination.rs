//! Page arithmetic shared by every paginated listing.

use vstd::prelude::*;

verus! {

/// The zero-based index of the page that a one-based page number asks for.
/// Page numbers zero and one both name the first page.
pub open spec fn page_index_of(page_number: u32) -> nat {
    if page_number == 0 {
        0
    } else {
        (page_number - 1) as nat
    }
}

/// The number of pages that `rows` rows fill at `page_size` rows to the page: the
/// quotient, rounded up.
pub open spec fn page_count(rows: nat, page_size: nat) -> nat {
    if rows % page_size == 0 {
        rows / page_size
    } else {
        rows / page_size + 1
    }
}

/// Where the page with index `index` begins among `rows` rows.
pub open spec fn page_start(rows: nat, page_size: nat, index: nat) -> nat {
    if index * page_size <= rows {
        index * page_size
    } else {
        rows
    }
}

/// Where the page with index `index` ends among `rows` rows.
pub open spec fn page_end(rows: nat, page_size: nat, index: nat) -> nat {
    if page_start(rows, page_size, index) + page_size <= rows {
        page_start(rows, page_size, index) + page_size
    } else {
        rows
    }
}

/// Turns the one-based page number of a request into a zero-based page index.
/// It never fails: what lies before the first page is the first page.
pub fn page_index(page_number: u32) -> (index: u64)
    ensures
        index == page_index_of(page_number),
{
    if page_number == 0 {
        0
    } else {
        (page_number - 1) as u64
    }
}

/// Counts the pages of a listing of `rows` rows.
pub fn total_pages(rows: u64, page_size: u64) -> (pages: u64)
    requires
        page_size > 0,
    ensures
        pages == page_count(rows as nat, page_size as nat),
{
    let full = rows / page_size;
    if rows % page_size > 0 {
        assert(full < rows) by (nonlinear_arith)
            requires
                full == rows / page_size,
                rows % page_size > 0,
                page_size > 0,
        ;
        full + 1
    } else {
        full
    }
}

/// The page count is the least number of pages that hold every row.
pub proof fn lemma_page_count_is_ceiling(rows: nat, page_size: nat)
    requires
        page_size > 0,
    ensures
        page_count(rows, page_size) * page_size >= rows,
        rows > 0 ==> (page_count(rows, page_size) - 1) * page_size < rows,
        rows == 0 ==> page_count(rows, page_size) == 0,
{
    let q = rows / page_size;
    let r = rows % page_size;
    assert(rows == q * page_size + r && 0 <= r < page_size) by (nonlinear_arith)
        requires
            q == rows / page_size,
            r == rows % page_size,
            page_size > 0,
    ;
    assert((q + 1) * page_size == q * page_size + page_size) by (nonlinear_arith);
    assert((q - 1) * page_size == q * page_size - page_size) by (nonlinear_arith);
    if rows == 0 {
        assert(q == 0) by (nonlinear_arith)
            requires
                0 == q * page_size + r,
                0 <= r,
                q >= 0,
                page_size > 0,
        ;
    }
}

/// The pages tile the listing: the first begins at the first row, each begins
/// where the one before it ends, every page before the page count holds a row,
/// and every later page is empty.
pub proof fn lemma_pages_tile(rows: nat, page_size: nat, index: nat)
    requires
        page_size > 0,
    ensures
        page_start(rows, page_size, 0) == 0,
        page_end(rows, page_size, index) == page_start(rows, page_size, index + 1),
        page_end(rows, page_size, index) - page_start(rows, page_size, index) <= page_size,
        index < page_count(rows, page_size) <==> page_start(rows, page_size, index) < page_end(
            rows,
            page_size,
            index,
        ),
        index >= page_count(rows, page_size) ==> page_start(rows, page_size, index) == rows,
{
    let q = rows / page_size;
    let r = rows % page_size;
    assert(rows == q * page_size + r && 0 <= r < page_size) by (nonlinear_arith)
        requires
            q == rows / page_size,
            r == rows % page_size,
            page_size > 0,
    ;
    assert((index + 1) * page_size == index * page_size + page_size) by (nonlinear_arith);
    assert(0 * page_size == 0) by (nonlinear_arith);
    if index < q {
        assert(index * page_size + page_size <= q * page_size) by (nonlinear_arith)
            requires
                index + 1 <= q,
                page_size > 0,
        ;
    } else if index == q {
        assert(index * page_size == q * page_size);
    } else {
        assert(index * page_size >= q * page_size + page_size) by (nonlinear_arith)
            requires
                index >= q + 1,
                page_size > 0,
        ;
    }
}

/// Page numbers zero and one ask for the same page, the first.
pub proof fn lemma_page_zero_is_page_one()
    ensures
        page_index_of(0) == page_index_of(1) == 0,
{
}

/// The bounds of the page with index `index` in a listing of `rows` rows.
pub fn page_bounds(rows: usize, page_size: usize, index: u64) -> (bounds: (usize, usize))
    requires
        page_size > 0,
    ensures
        bounds.0 == page_start(rows as nat, page_size as nat, index as nat),
        bounds.1 == page_end(rows as nat, page_size as nat, index as nat),
        bounds.0 <= bounds.1 <= rows,
{
    let whole = rows / page_size;
    let start: usize = if index <= whole as u64 {
        proof {
            assert(index * page_size <= rows) by (nonlinear_arith)
                requires
                    index <= whole,
                    whole == rows / page_size,
                    page_size > 0,
            ;
        }
        (index as usize) * page_size
    } else {
        proof {
            assert(index * page_size > rows) by (nonlinear_arith)
                requires
                    index >= whole + 1,
                    whole == rows / page_size,
                    page_size > 0,
            ;
        }
        rows
    };
    let end: usize = if page_size <= rows - start {
        start + page_size
    } else {
        rows
    };
    (start, end)
}

/// The rows of one page of a listing, in the listing's order. A page past the end
/// is empty.
pub fn page_of<T: Copy>(rows: &Vec<T>, page_size: usize, page_number: u32) -> (page: Vec<T>)
    requires
        page_size > 0,
    ensures
        page@ == rows@.subrange(
            page_start(rows.len() as nat, page_size as nat, page_index_of(page_number)) as int,
            page_end(rows.len() as nat, page_size as nat, page_index_of(page_number)) as int,
        ),
{
    let (start, end) = page_bounds(rows.len(), page_size, page_index(page_number));
    let mut page: Vec<T> = Vec::new();
    let mut i: usize = start;
    while i < end
        invariant
            start <= i <= end <= rows.len(),
            page@ == rows@.subrange(start as int, i as int),
        decreases end - i,
    {
        page.push(rows[i]);
        i += 1;
    }
    page
}

} // verus!
