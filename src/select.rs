use vstd::prelude::*;
use vstd::arithmetic::div_mod::lemma_add_mod_noop_right;
use vstd::string::to_string_from_display_ensures;
use vstd::std_specs::convert::IntoSpec;
use vstd::string::StringSliceAdditionalSpecFns;
use vstd::utf8::encode_utf8;

use crate::key::{action_of, Action, Key};
use crate::paging::Paging;
use crate::theme::{SimpleTheme, Theme};

verus! {

/// The highlighted item: none yet, or a list index.
#[derive(Clone, Copy, Debug, PartialEq, Eq, Structural)]
pub enum Selection {
    Unset,
    Index(usize),
}

/// Down from nothing highlighted goes to the first item, and from the last
/// item back to the first.
pub open spec fn next_selection(sel: Selection, n: int) -> Selection {
    match sel {
        Selection::Unset => Selection::Index(0),
        Selection::Index(i) => Selection::Index(((i + 1) % n) as usize),
    }
}

/// Up from nothing highlighted goes to the last item, and from the first
/// item back to the last.
pub open spec fn prev_selection(sel: Selection, n: int) -> Selection {
    match sel {
        Selection::Unset => Selection::Index((n - 1) as usize),
        Selection::Index(i) => Selection::Index(((i - 1 + n) % n) as usize),
    }
}

/// The configured default as a selection: a default past the end of the
/// list highlights nothing.
pub open spec fn initial_selection(default: usize, n: int) -> Selection {
    if default < n {
        Selection::Index(default)
    } else {
        Selection::Unset
    }
}

/// Byte lengths of the lines of `s`, split at each newline byte: one more
/// line than there are newlines.
pub open spec fn line_lengths(s: Seq<u8>) -> Seq<int>
    decreases s.len(),
{
    if s.len() == 0 {
        seq![0]
    } else {
        let prev = line_lengths(s.drop_last());
        if s.last() == NEWLINE {
            prev.push(0)
        } else {
            prev.update(prev.len() - 1, prev.last() + 1)
        }
    }
}

/// The line lengths of each item's text in turn, in UTF-8 bytes.
pub open spec fn items_line_lengths(items: Seq<String>) -> Seq<int>
    decreases items.len(),
{
    if items.len() == 0 {
        seq![]
    } else {
        items_line_lengths(items.drop_last()) + line_lengths(encode_utf8(items.last()@))
    }
}

/// The newline byte.
pub const NEWLINE: u8 = 10;

proof fn lemma_line_lengths_nonempty(s: Seq<u8>)
    ensures
        line_lengths(s).len() >= 1,
        0 <= line_lengths(s).last() <= s.len(),
    decreases s.len(),
{
    if s.len() > 0 {
        lemma_line_lengths_nonempty(s.drop_last());
    }
}

impl Selection {
    /// Nothing is highlighted, or an item of a list of `n` items is.
    pub open spec fn valid(self, n: int) -> bool {
        match self {
            Selection::Unset => true,
            Selection::Index(i) => i < n,
        }
    }

    /// The selection one item further down a list of `n` items.
    pub fn next(self, n: usize) -> (r: Selection)
        requires
            n > 0,
            self.valid(n as int),
        ensures
            r == next_selection(self, n as int),
            r.valid(n as int),
    {
        match self {
            Selection::Unset => Selection::Index(0),
            Selection::Index(i) => {
                if i + 1 == n {
                    proof {
                        assert((i + 1) as int % n as int == 0) by (nonlinear_arith)
                            requires i + 1 == n, n > 0;
                    }
                    Selection::Index(0)
                } else {
                    proof {
                        assert((i + 1) as int % n as int == i + 1) by (nonlinear_arith)
                            requires i + 1 < n;
                    }
                    Selection::Index(i + 1)
                }
            },
        }
    }

    /// The selection one item further up a list of `n` items.
    pub fn prev(self, n: usize) -> (r: Selection)
        requires
            n > 0,
            self.valid(n as int),
        ensures
            r == prev_selection(self, n as int),
            r.valid(n as int),
    {
        match self {
            Selection::Unset => Selection::Index(n - 1),
            Selection::Index(i) => {
                if i == 0 {
                    proof {
                        assert((i - 1 + n) as int % n as int == n - 1) by (nonlinear_arith)
                            requires i == 0, n > 0;
                    }
                    Selection::Index(n - 1)
                } else {
                    proof {
                        assert((i - 1 + n) as int % n as int == i - 1) by (nonlinear_arith)
                            requires 0 < i < n;
                    }
                    Selection::Index(i - 1)
                }
            },
        }
    }
}

/// Why a prompt could not start.
#[derive(Clone, Copy, Debug, PartialEq, Eq, Structural)]
pub enum SelectError {
    /// There are no items to choose from.
    EmptyItems,
}

/// What the prompt does after a key.
#[derive(Clone, Copy, Debug, PartialEq, Eq, Structural)]
pub enum Step {
    /// Redraw and read the next key.
    Continue,
    /// The user gave up without choosing.
    Cancelled,
    /// The user chose the item at this index.
    Selected(usize),
}

/// The state of a running prompt: the highlighted item and the pages.
pub struct Session {
    pub sel: Selection,
    pub paging: Paging,
    pub item_count: usize,
    /// Whether Escape and `q` end the prompt.
    pub allow_quit: bool,
}

impl Session {
    /// The invariant: a non-empty list, its paging, and a highlighted item
    /// that lies in it.
    pub open spec fn wf(self) -> bool {
        &&& self.item_count > 0
        &&& self.paging.wf()
        &&& self.paging.items_len == self.item_count
        &&& self.sel.valid(self.item_count as int)
    }

    /// The key decision table: the state after `key`, and what follows.
    pub open spec fn after(self, key: Key) -> (Session, Step) {
        match action_of(key) {
            Action::MoveNext => (
                Session { sel: next_selection(self.sel, self.item_count as int), ..self },
                Step::Continue,
            ),
            Action::MovePrev => (
                Session { sel: prev_selection(self.sel, self.item_count as int), ..self },
                Step::Continue,
            ),
            Action::PagePrev => if self.paging.active {
                (
                    Session {
                        sel: Selection::Index(self.paging.backward().start() as usize),
                        paging: self.paging.backward(),
                        ..self
                    },
                    Step::Continue,
                )
            } else {
                (self, Step::Continue)
            },
            Action::PageNext => if self.paging.active {
                (
                    Session {
                        sel: Selection::Index(self.paging.forward().start() as usize),
                        paging: self.paging.forward(),
                        ..self
                    },
                    Step::Continue,
                )
            } else {
                (self, Step::Continue)
            },
            Action::Cancel => (
                self,
                if self.allow_quit {
                    Step::Cancelled
                } else {
                    Step::Continue
                },
            ),
            Action::Confirm => (
                self,
                match self.sel {
                    Selection::Index(i) => Step::Selected(i),
                    Selection::Unset => Step::Continue,
                },
            ),
            Action::Ignore => (self, Step::Continue),
        }
    }

    /// Brings the pages up to date for a terminal of `rows` lines, on the
    /// page that shows the highlighted item.
    pub fn refresh(&mut self, rows: u16)
        requires
            old(self).wf(),
        ensures
            final(self).wf(),
            *final(self) == (Session {
                paging: old(self).paging.updated(rows, old(self).sel),
                ..*old(self)
            }),
    {
        self.paging.update(rows, self.sel);
    }

    /// Applies one key press.
    pub fn handle_key(&mut self, key: Key) -> (r: Step)
        requires
            old(self).wf(),
        ensures
            final(self).wf(),
            (*final(self), r) == old(self).after(key),
    {
        match Action::from_key(key) {
            Action::MoveNext => {
                self.sel = self.sel.next(self.item_count);
                Step::Continue
            },
            Action::MovePrev => {
                self.sel = self.sel.prev(self.item_count);
                Step::Continue
            },
            Action::PagePrev => {
                if self.paging.enabled() {
                    let first = self.paging.previous_page();
                    self.sel = Selection::Index(first);
                }
                Step::Continue
            },
            Action::PageNext => {
                if self.paging.enabled() {
                    let first = self.paging.next_page();
                    self.sel = Selection::Index(first);
                }
                Step::Continue
            },
            Action::Cancel => {
                if self.allow_quit {
                    Step::Cancelled
                } else {
                    Step::Continue
                }
            },
            Action::Confirm => {
                match self.sel {
                    Selection::Index(i) => Step::Selected(i),
                    Selection::Unset => Step::Continue,
                }
            },
            Action::Ignore => Step::Continue,
        }
    }
}

/// A select prompt: the items to choose from and how the prompt behaves.
pub struct Select<'a> {
    /// Index of the item highlighted at the start; past the end of the list
    /// nothing is.
    pub default: usize,
    pub items: Vec<String>,
    /// When set, shown above the items and, after a choice, beside it.
    pub prompt: Option<String>,
    /// Whether the prompt is erased from the screen once it ends.
    pub clear: bool,
    pub theme: &'a dyn Theme,
    /// Kept for callers that still set it: paging turns on by itself.
    pub paged: bool,
}

/// How many of `sizes` exceed `width`: the lines that wrap once on a
/// terminal that wide.
pub open spec fn wrapped_count(sizes: Seq<usize>, width: int) -> int
    decreases sizes.len(),
{
    if sizes.len() == 0 {
        0
    } else {
        wrapped_count(sizes.drop_last(), width) + if sizes.last() > width {
            1int
        } else {
            0
        }
    }
}

/// Counts the lines of `sizes` bytes that are longer than `width`.
pub fn wrapped_lines(sizes: &[usize], width: usize) -> (r: usize)
    ensures
        r == wrapped_count(sizes@, width as int),
{
    let mut r: usize = 0;
    let mut i: usize = 0;
    while i < sizes.len()
        invariant
            i <= sizes@.len(),
            r <= i,
            r == wrapped_count(sizes@.subrange(0, i as int), width as int),
        decreases sizes@.len() - i,
    {
        proof {
            assert(sizes@.subrange(0, i + 1).drop_last() =~= sizes@.subrange(0, i as int));
        }
        if sizes[i] > width {
            r = r + 1;
        }
        i = i + 1;
    }
    proof {
        assert(sizes@.subrange(0, i as int) =~= sizes@);
    }
    r
}

impl<'a> Select<'a> {
    /// A prompt with the plain theme.
    pub fn new() -> (r: Select<'static>)
        ensures
            r.default == usize::MAX,
            r.items@.len() == 0,
            r.prompt is None,
            r.clear,
            !r.paged,
    {
        Select::with_theme(&SimpleTheme)
    }

    /// A prompt drawn with `theme`: no items, no prompt text, nothing
    /// highlighted at the start, erased once it ends.
    pub fn with_theme(theme: &'a dyn Theme) -> (r: Select<'a>)
        ensures
            r.default == usize::MAX,
            r.items@.len() == 0,
            r.prompt is None,
            r.clear,
            !r.paged,
    {
        Select { default: usize::MAX, items: Vec::new(), prompt: None, clear: true, theme, paged: false }
    }

    /// Sets the paging flag, which no longer changes anything.
    pub fn paged(&mut self, val: bool) -> (r: &mut Select<'a>)
        ensures
            *r == (Select { paged: val, ..*old(self) }),
            *final(self) == *final(r),
    {
        self.paged = val;
        self
    }

    /// Sets whether the prompt is erased once it ends.
    pub fn clear(&mut self, val: bool) -> (r: &mut Select<'a>)
        ensures
            *r == (Select { clear: val, ..*old(self) }),
            *final(self) == *final(r),
    {
        self.clear = val;
        self
    }

    /// Sets the index of the item highlighted at the start.
    pub fn default(&mut self, val: usize) -> (r: &mut Select<'a>)
        ensures
            *r == (Select { default: val, ..*old(self) }),
            *final(self) == *final(r),
    {
        self.default = val;
        self
    }

    /// Adds one item, as its text.
    pub fn item<T: std::fmt::Display>(&mut self, item: T) -> (r: &mut Select<'a>)
        ensures
            r.items@.len() == old(self).items@.len() + 1,
            r.items@.drop_last() == old(self).items@,
            to_string_from_display_ensures::<T>(&item, r.items@.last()),
            *r == (Select { items: r.items, ..*old(self) }),
            *final(self) == *final(r),
    {
        self.items.push(item.to_string());
        self
    }

    /// Adds several items, as their texts, in order.
    pub fn items<T: std::fmt::Display>(&mut self, items: &[T]) -> (r: &mut Select<'a>)
        ensures
            r.items@.len() == old(self).items@.len() + items@.len(),
            r.items@.subrange(0, old(self).items@.len() as int) == old(self).items@,
            forall|k: int|
                0 <= k < items@.len() ==> to_string_from_display_ensures::<T>(
                    &items@[k],
                    #[trigger] r.items@[old(self).items@.len() + k],
                ),
            *r == (Select { items: r.items, ..*old(self) }),
            *final(self) == *final(r),
    {
        let mut i: usize = 0;
        while i < items.len()
            invariant
                i <= items@.len(),
                self.items@.len() == old(self).items@.len() + i,
                self.items@.subrange(0, old(self).items@.len() as int) == old(self).items@,
                forall|k: int|
                    0 <= k < i ==> to_string_from_display_ensures::<T>(
                        &items@[k],
                        #[trigger] self.items@[old(self).items@.len() + k],
                    ),
                *self == (Select { items: self.items, ..*old(self) }),
            decreases items@.len() - i,
        {
            let text = items[i].to_string();
            self.items.push(text);
            i = i + 1;
        }
        self
    }

    /// Sets the prompt text.
    pub fn with_prompt<S: Into<String>>(&mut self, prompt: S) -> (r: &mut Select<'a>)
        ensures
            r.prompt is Some,
            S::obeys_into_spec() ==> r.prompt == Some(prompt.into_spec()),
            *r == (Select { prompt: r.prompt, ..*old(self) }),
            *final(self) == *final(r),
    {
        self.prompt = Some(prompt.into());
        self
    }

    /// The byte length of every line of every item, in order. An item with
    /// line breaks takes one entry per line, so that the caller can tell how
    /// much of the screen the items fill.
    pub fn line_sizes(&self) -> (r: Vec<usize>)
        ensures
            r@.len() == items_line_lengths(self.items@).len(),
            forall|k: int| 0 <= k < r@.len() ==> r@[k] == items_line_lengths(self.items@)[k],
    {
        let mut r: Vec<usize> = Vec::new();
        let mut j: usize = 0;
        while j < self.items.len()
            invariant
                j <= self.items@.len(),
                r@.len() == items_line_lengths(self.items@.subrange(0, j as int)).len(),
                forall|k: int|
                    0 <= k < r@.len() ==> r@[k] == items_line_lengths(
                        self.items@.subrange(0, j as int),
                    )[k],
            decreases self.items@.len() - j,
        {
            let bytes = self.items[j].as_str().as_bytes();
            let ghost done = items_line_lengths(self.items@.subrange(0, j as int));
            let mut cur: usize = 0;
            let mut i: usize = 0;
            proof {
                assert(bytes@.subrange(0, 0) =~= Seq::<u8>::empty());
            }
            while i < bytes.len()
                invariant
                    i <= bytes@.len(),
                    cur <= i,
                    done == items_line_lengths(self.items@.subrange(0, j as int)),
                    r@.len() == done.len() + line_lengths(bytes@.subrange(0, i as int)).len() - 1,
                    forall|k: int|
                        0 <= k < r@.len() ==> r@[k] == (done + line_lengths(
                            bytes@.subrange(0, i as int),
                        ).drop_last())[k],
                    cur == line_lengths(bytes@.subrange(0, i as int)).last(),
                decreases bytes@.len() - i,
            {
                let ghost before = bytes@.subrange(0, i as int);
                proof {
                    lemma_line_lengths_nonempty(before);
                    assert(bytes@.subrange(0, i + 1).drop_last() =~= before);
                }
                if bytes[i] == NEWLINE {
                    r.push(cur);
                    cur = 0;
                    proof {
                        assert(done + line_lengths(bytes@.subrange(0, i + 1)).drop_last() =~= done
                            + line_lengths(before));
                        assert(line_lengths(before) =~= line_lengths(before).drop_last().push(
                            line_lengths(before).last(),
                        ));
                        assert forall|k: int| 0 <= k < r@.len() implies r@[k] == (done
                            + line_lengths(bytes@.subrange(0, i + 1)).drop_last())[k] by {
                            if k < r@.len() - 1 {
                            }
                        }
                    }
                } else {
                    cur = cur + 1;
                    proof {
                        assert(line_lengths(bytes@.subrange(0, i + 1)).drop_last() =~= line_lengths(
                            before,
                        ).drop_last());
                    }
                }
                i = i + 1;
            }
            r.push(cur);
            proof {
                let line = line_lengths(bytes@);
                assert(bytes@.subrange(0, i as int) =~= bytes@);
                lemma_line_lengths_nonempty(bytes@);
                let next = self.items@.subrange(0, j + 1);
                assert(next.drop_last() =~= self.items@.subrange(0, j as int));
                assert(bytes@ == encode_utf8(next.last()@));
                assert(line =~= line.drop_last().push(line.last()));
                assert forall|k: int| 0 <= k < r@.len() implies r@[k] == items_line_lengths(
                    next,
                )[k] by {
                    if k < r@.len() - 1 {
                    }
                }
            }
            j = j + 1;
        }
        proof {
            assert(self.items@.subrange(0, j as int) =~= self.items@);
        }
        r
    }

    /// Starts a prompt on a terminal of `rows` lines: the configured default
    /// highlighted, on its page. Fails when there are no items.
    pub fn start(&self, allow_quit: bool, rows: u16) -> (r: Result<Session, SelectError>)
        ensures
            self.items@.len() > 0 <==> r is Ok,
            self.items@.len() == 0 <==> r == Err::<Session, SelectError>(SelectError::EmptyItems),
            r matches Ok(s) ==> {
                &&& s.wf()
                &&& s.item_count == self.items@.len()
                &&& s.sel == initial_selection(self.default, self.items@.len() as int)
                &&& s.allow_quit == allow_quit
                &&& s.paging == Paging::new_spec(rows, self.items@.len() as usize).updated(rows, s.sel)
            },
    {
        let n = self.items.len();
        if n == 0 {
            return Err(SelectError::EmptyItems);
        }
        let sel = if self.default < n {
            Selection::Index(self.default)
        } else {
            Selection::Unset
        };
        let mut paging = Paging::new(rows, n);
        paging.update(rows, sel);
        Ok(Session { sel, paging, item_count: n, allow_quit })
    }
}

/// The session after pressing `key` `k` times.
pub open spec fn pressed(s: Session, key: Key, k: nat) -> Session
    decreases k,
{
    if k == 0 {
        s
    } else {
        pressed(s, key, (k - 1) as nat).after(key).0
    }
}

/// From nothing highlighted, `k >= 1` presses of Down highlight item
/// `(k - 1) mod n` of `n`, and change nothing else.
pub proof fn lemma_down_presses(s: Session, k: nat)
    requires
        s.wf(),
        s.sel == Selection::Unset,
        k >= 1,
    ensures
        pressed(s, Key::ArrowDown, k) == (Session {
            sel: Selection::Index(((k - 1) % (s.item_count as int)) as usize),
            ..s
        }),
    decreases k,
{
    let n = s.item_count as int;
    assert(action_of(Key::ArrowDown) == Action::MoveNext);
    if k == 1 {
        assert(0int % n == 0) by (nonlinear_arith)
            requires n > 0;
    } else {
        lemma_down_presses(s, (k - 1) as nat);
        let prev = (k - 2) % n;
        assert(0 <= prev < n) by (nonlinear_arith)
            requires n > 0, prev == (k - 2) % n;
        lemma_add_mod_noop_right(1, k - 2, n);
        assert((prev + 1) % n == (k - 1) % n);
    }
}

/// Up from the first item highlights the last one, and Down from the last
/// item highlights the first one.
pub proof fn lemma_wrap_around(s: Session)
    requires
        s.wf(),
    ensures
        s.sel == Selection::Index(0) ==> s.after(Key::ArrowUp).0.sel == Selection::Index(
            (s.item_count - 1) as usize,
        ),
        s.sel == Selection::Index((s.item_count - 1) as usize) ==> s.after(Key::ArrowDown).0.sel
            == Selection::Index(0),
{
    let n = s.item_count as int;
    assert(action_of(Key::ArrowUp) == Action::MovePrev);
    assert(action_of(Key::ArrowDown) == Action::MoveNext);
    assert((0 - 1 + n) % n == n - 1) by (nonlinear_arith)
        requires n > 0;
    assert((n - 1 + 1) % n == 0) by (nonlinear_arith)
        requires n > 0;
}

} // verus!
