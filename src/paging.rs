use vstd::prelude::*;
use vstd::arithmetic::div_mod::{lemma_fundamental_div_mod, lemma_div_is_ordered};
use vstd::arithmetic::mul::lemma_mul_inequality;

use crate::select::Selection;

verus! {

/// Number of terminal lines that a paged prompt keeps for its banner.
pub const RESERVED_LINES: u16 = 2;

/// Items per page on a terminal with `rows` lines: the lines left after the
/// banner, and never less than one.
pub open spec fn capacity_for(rows: int) -> int {
    if rows > RESERVED_LINES as int {
        rows - RESERVED_LINES as int
    } else {
        1
    }
}

/// `ceil(len / cap)`: the number of pages that `len` items fill.
pub open spec fn page_count(len: int, cap: int) -> int {
    if len % cap == 0 {
        len / cap
    } else {
        len / cap + 1
    }
}

/// Splits a list of `items_len` items into pages that fit the terminal.
pub struct Paging {
    pub items_len: usize,
    /// Items per page.
    pub capacity: usize,
    /// Number of pages.
    pub pages: usize,
    /// The page shown, counted from zero.
    pub current_page: usize,
    /// Whether there is more than one page.
    pub active: bool,
}

/// The page start `page * cap` of an existing page lies inside the list.
proof fn lemma_page_start_in_list(len: int, cap: int, page: int)
    requires
        len >= 0,
        cap >= 1,
        0 <= page < page_count(len, cap),
    ensures
        page * cap < len,
        0 <= page * cap,
{
    lemma_fundamental_div_mod(len, cap);
    let q = len / cap;
    assert(0 <= len % cap < cap) by (nonlinear_arith)
        requires cap >= 1;
    assert(q >= 0) by (nonlinear_arith)
        requires len >= 0, cap >= 1, q == len / cap;
    assert(page <= page_count(len, cap) - 1);
    lemma_mul_inequality(page, page_count(len, cap) - 1, cap);
    if len % cap == 0 {
        assert((q - 1) * cap < len) by (nonlinear_arith)
            requires len == cap * q + len % cap, len % cap == 0, cap >= 1;
    } else {
        assert(q * cap < len) by (nonlinear_arith)
            requires len == cap * q + len % cap, len % cap > 0;
    }
    assert(0 <= page * cap) by (nonlinear_arith)
        requires page >= 0, cap >= 1;
}

/// Every index of the list lies on an existing page, and there are no more
/// pages than items.
proof fn lemma_index_page(len: int, cap: int, i: int)
    requires
        cap >= 1,
        0 <= i < len,
    ensures
        0 <= i / cap < page_count(len, cap),
        page_count(len, cap) <= len,
{
    lemma_div_is_ordered(i, len, cap);
    lemma_fundamental_div_mod(len, cap);
    lemma_fundamental_div_mod(i, cap);
    assert(0 <= i / cap) by (nonlinear_arith)
        requires i >= 0, cap >= 1;
    assert(len / cap <= len) by (nonlinear_arith)
        requires len >= 0, cap >= 1, len == cap * (len / cap) + len % cap, 0 <= len % cap;
    if len % cap != 0 {
        assert(len / cap < len) by (nonlinear_arith)
            requires len >= 0, cap >= 1, len == cap * (len / cap) + len % cap, 0 < len % cap;
    }
}

impl Paging {
    /// The invariant: the page count and activity follow from the length and
    /// the capacity, and the current page exists (page 0 of an empty list).
    pub open spec fn wf(self) -> bool {
        &&& self.capacity >= 1
        &&& self.pages == page_count(self.items_len as int, self.capacity as int)
        &&& self.active == (self.pages > 1)
        &&& (self.current_page < self.pages || (self.pages == 0 && self.current_page == 0))
    }

    /// The paging for a terminal of `rows` lines, on the page that shows
    /// `sel` (page 0 when nothing is highlighted).
    pub open spec fn updated(self, rows: u16, sel: Selection) -> Paging {
        let cap = capacity_for(rows as int);
        let pages = page_count(self.items_len as int, cap);
        Paging {
            items_len: self.items_len,
            capacity: cap as usize,
            pages: pages as usize,
            current_page: match sel {
                Selection::Index(i) => (i as int / cap) as usize,
                Selection::Unset => 0,
            },
            active: pages > 1,
        }
    }

    /// A fresh paging of `items_len` items for a terminal of `rows` lines,
    /// on the first page.
    pub open spec fn new_spec(rows: u16, items_len: usize) -> Paging {
        let cap = capacity_for(rows as int);
        let pages = page_count(items_len as int, cap);
        Paging {
            items_len,
            capacity: cap as usize,
            pages: pages as usize,
            current_page: 0,
            active: pages > 1,
        }
    }

    /// The paging after turning to the next page, from the last to the first.
    pub open spec fn forward(self) -> Paging {
        Paging {
            current_page: if self.current_page + 1 == self.pages {
                0
            } else {
                (self.current_page + 1) as usize
            },
            ..self
        }
    }

    /// The paging after turning to the previous page, from the first to the
    /// last.
    pub open spec fn backward(self) -> Paging {
        Paging {
            current_page: if self.current_page == 0 {
                (self.pages - 1) as usize
            } else {
                (self.current_page - 1) as usize
            },
            ..self
        }
    }

    /// First list index on the current page.
    pub open spec fn start(self) -> int {
        self.current_page * self.capacity
    }

    /// One past the last list index on the current page.
    pub open spec fn end(self) -> int {
        if self.items_len - self.start() < self.capacity {
            self.items_len as int
        } else {
            self.start() + self.capacity
        }
    }

    /// Computes `capacity_for(rows)`.
    fn capacity_of(rows: u16) -> (r: usize)
        ensures
            r == capacity_for(rows as int),
            r >= 1,
    {
        if rows > RESERVED_LINES {
            (rows - RESERVED_LINES) as usize
        } else {
            1
        }
    }

    /// Computes `page_count(len, cap)`.
    fn count_pages(len: usize, cap: usize) -> (r: usize)
        requires
            cap >= 1,
        ensures
            r == page_count(len as int, cap as int),
    {
        if len > 0 {
            proof {
                lemma_index_page(len as int, cap as int, 0);
            }
        }
        if len % cap == 0 {
            len / cap
        } else {
            len / cap + 1
        }
    }

    /// Pages `items_len` items for a terminal of `rows` lines, starting on
    /// the first page.
    pub fn new(rows: u16, items_len: usize) -> (r: Paging)
        ensures
            r.wf(),
            r == Paging::new_spec(rows, items_len),
    {
        let capacity = Paging::capacity_of(rows);
        let pages = Paging::count_pages(items_len, capacity);
        Paging { items_len, capacity, pages, current_page: 0, active: pages > 1 }
    }

    /// Recomputes the capacity for a terminal that now has `rows` lines, and
    /// moves to the page that shows `sel`.
    pub fn update(&mut self, rows: u16, sel: Selection)
        requires
            old(self).wf(),
            sel.valid(old(self).items_len as int),
        ensures
            final(self).wf(),
            *final(self) == old(self).updated(rows, sel),
    {
        let capacity = Paging::capacity_of(rows);
        let pages = Paging::count_pages(self.items_len, capacity);
        self.capacity = capacity;
        self.pages = pages;
        self.active = pages > 1;
        match sel {
            Selection::Index(i) => {
                proof {
                    lemma_index_page(self.items_len as int, capacity as int, i as int);
                }
                self.current_page = i / capacity;
            },
            Selection::Unset => {
                self.current_page = 0;
            },
        }
    }
    /// Number of items per page.
    pub fn capacity(&self) -> (r: usize)
        ensures
            r == self.capacity,
    {
        self.capacity
    }

    /// Whether the list needs more than one page.
    pub fn enabled(&self) -> (r: bool)
        requires
            self.wf(),
        ensures
            r == (self.pages > 1),
    {
        self.active
    }

    /// The page shown, counted from zero.
    pub fn current_page(&self) -> (r: usize)
        ensures
            r == self.current_page,
    {
        self.current_page
    }

    /// Number of pages.
    pub fn pages(&self) -> (r: usize)
        ensures
            r == self.pages,
    {
        self.pages
    }

    /// Moves to the next page, from the last one to the first, and returns
    /// the list index of the first item on it.
    pub fn next_page(&mut self) -> (r: usize)
        requires
            old(self).wf(),
            old(self).pages >= 1,
        ensures
            final(self).wf(),
            *final(self) == old(self).forward(),
            r == final(self).start(),
            r < old(self).items_len,
    {
        if self.current_page == self.pages - 1 {
            self.current_page = 0;
        } else {
            self.current_page = self.current_page + 1;
        }
        proof {
            lemma_page_start_in_list(self.items_len as int, self.capacity as int, self.current_page as int);
        }
        self.current_page * self.capacity
    }

    /// Moves to the previous page, from the first one to the last, and
    /// returns the list index of the first item on it.
    pub fn previous_page(&mut self) -> (r: usize)
        requires
            old(self).wf(),
            old(self).pages >= 1,
        ensures
            final(self).wf(),
            *final(self) == old(self).backward(),
            r == final(self).start(),
            r < old(self).items_len,
    {
        if self.current_page == 0 {
            self.current_page = self.pages - 1;
        } else {
            self.current_page = self.current_page - 1;
        }
        proof {
            lemma_page_start_in_list(self.items_len as int, self.capacity as int, self.current_page as int);
        }
        self.current_page * self.capacity
    }

    /// The list indices of the items on the current page, in list order.
    pub fn render_page_items(&self) -> (r: Vec<usize>)
        requires
            self.wf(),
        ensures
            r@.len() == self.end() - self.start(),
            forall|k: int| 0 <= k < r@.len() ==> r@[k] == self.start() + k,
    {
        let start: usize = if self.pages == 0 {
            0
        } else {
            proof {
                lemma_page_start_in_list(self.items_len as int, self.capacity as int, self.current_page as int);
            }
            self.current_page * self.capacity
        };
        proof {
            if self.pages == 0 {
                assert(self.current_page == 0);
                assert(self.start() == 0) by (nonlinear_arith)
                    requires self.current_page == 0;
            }
        }
        let end: usize = if self.items_len - start < self.capacity {
            self.items_len
        } else {
            start + self.capacity
        };
        let mut r: Vec<usize> = Vec::new();
        let mut i: usize = start;
        while i < end
            invariant
                start <= i <= end,
                start == self.start(),
                end == self.end(),
                r@.len() == i - start,
                forall|k: int| 0 <= k < r@.len() ==> r@[k] == start + k,
            decreases end - i,
        {
            r.push(i);
            i = i + 1;
        }
        r
    }
}

/// Updating twice with the same terminal height and highlighted item gives
/// what updating once gave: the same page and the same visible items.
pub proof fn lemma_update_idempotent(p: Paging, rows: u16, sel: Selection)
    requires
        p.wf(),
        sel.valid(p.items_len as int),
    ensures
        p.updated(rows, sel).updated(rows, sel) == p.updated(rows, sel),
        p.updated(rows, sel).updated(rows, sel).start() == p.updated(rows, sel).start(),
        p.updated(rows, sel).updated(rows, sel).end() == p.updated(rows, sel).end(),
{
}

/// A list longer than a page turns paging on, with `ceil(len / capacity)`
/// pages: the smallest count whose pages hold every item. A list that fits
/// leaves paging off and shows every item on the one page.
pub proof fn lemma_paging_enabled(p: Paging)
    requires
        p.wf(),
    ensures
        p.items_len > p.capacity ==> {
            &&& p.active
            &&& p.pages * p.capacity >= p.items_len
            &&& (p.pages - 1) * p.capacity < p.items_len
        },
        p.items_len <= p.capacity ==> {
            &&& !p.active
            &&& p.start() == 0
            &&& p.end() == p.items_len
        },
{
    let len = p.items_len as int;
    let cap = p.capacity as int;
    lemma_fundamental_div_mod(len, cap);
    let q = len / cap;
    assert(0 <= len % cap < cap) by (nonlinear_arith)
        requires cap >= 1;
    if len > cap {
        assert(q >= 1) by (nonlinear_arith)
            requires len == cap * q + len % cap, len % cap < cap, len > cap;
        if len % cap == 0 {
            assert(q >= 2) by (nonlinear_arith)
                requires len == cap * q, len > cap, cap >= 1;
            assert(p.pages * cap >= len) by (nonlinear_arith)
                requires len == cap * q, p.pages == q;
            assert((p.pages - 1) * cap < len) by (nonlinear_arith)
                requires len == cap * q, p.pages == q, cap >= 1;
        } else {
            assert(p.pages * cap >= len) by (nonlinear_arith)
                requires len == cap * q + len % cap, len % cap < cap, p.pages == q + 1;
            assert((p.pages - 1) * cap < len) by (nonlinear_arith)
                requires len == cap * q + len % cap, len % cap > 0, p.pages == q + 1;
        }
    } else {
        if len == cap {
            assert(q == 1 && len % cap == 0) by (nonlinear_arith)
                requires len == cap * q + len % cap, 0 <= len % cap < cap, len == cap, cap >= 1;
        } else {
            assert(q == 0) by (nonlinear_arith)
                requires len == cap * q + len % cap, 0 <= len % cap, len < cap, len >= 0;
        }
        assert(p.pages <= 1);
        assert(p.current_page == 0);
        assert(p.start() == 0) by (nonlinear_arith)
            requires p.current_page == 0;
    }
}

} // verus!
