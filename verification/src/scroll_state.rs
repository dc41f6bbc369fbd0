//! Scrolling a window of `page_size` lines over a list of lines.
use vstd::prelude::*;

verus! {

/// A scrolled view: the first visible line and the number of visible lines.
#[derive(Clone, Copy, Debug, PartialEq, Eq, Structural)]
pub struct ScrollState {
    /// Zero-based index of the first visible line in the current viewport.
    pub offset: usize,
    /// Number of lines visible in the current viewport (minimum 1).
    pub page_size: usize,
}

/// `a - b`, or zero when `b > a`.
pub open spec fn sat_sub(a: int, b: int) -> int {
    if a > b {
        a - b
    } else {
        0
    }
}

/// `a + b`, or `usize::MAX` when the sum does not fit.
pub open spec fn sat_add_usize(a: int, b: int) -> int {
    if a + b > usize::MAX {
        usize::MAX as int
    } else {
        a + b
    }
}

/// The smaller of `a` and `b`.
pub open spec fn min_int(a: int, b: int) -> int {
    if a < b {
        a
    } else {
        b
    }
}

/// A page size of at least one line.
pub open spec fn effective_page(page_size: usize) -> usize {
    if page_size >= 1 {
        page_size
    } else {
        1
    }
}

/// The largest first line that still fills a page: `total_lines - page`, or 0.
pub open spec fn max_offset_for(page_size: usize, total_lines: usize) -> usize {
    sat_sub(total_lines as int, effective_page(page_size) as int) as usize
}

/// `|delta|`.
pub open spec fn magnitude(delta: i32) -> int {
    if delta < 0 {
        -(delta as int)
    } else {
        delta as int
    }
}

impl ScrollState {
    /// The state with its offset brought down to the last full page.
    pub open spec fn clamped(self, total_lines: usize) -> ScrollState {
        let m = max_offset_for(self.page_size, total_lines);
        if self.offset > m {
            ScrollState { offset: m, page_size: self.page_size }
        } else {
            self
        }
    }

    /// The state with a new page size (at least one), then clamped.
    pub open spec fn with_page_size(self, page_size: usize, total_lines: usize) -> ScrollState {
        ScrollState { offset: self.offset, page_size: effective_page(page_size) }.clamped(
            total_lines,
        )
    }

    /// The state moved by `delta` lines (saturating at both ends), then clamped.
    pub open spec fn scrolled(self, delta: i32, total_lines: usize) -> ScrollState {
        let offset = if delta < 0 {
            sat_sub(self.offset as int, magnitude(delta))
        } else {
            sat_add_usize(self.offset as int, delta as int)
        };
        ScrollState { offset: offset as usize, page_size: self.page_size }.clamped(total_lines)
    }

    /// The state moved up by one page (at least one line), stopping at the
    /// first line.
    pub open spec fn paged_up(self, total_lines: usize) -> ScrollState {
        ScrollState {
            offset: sat_sub(self.offset as int, effective_page(self.page_size) as int) as usize,
            page_size: self.page_size,
        }.clamped(total_lines)
    }

    /// The state moved down by one page (at least one line), stopping at the
    /// last full page.
    pub open spec fn paged_down(self, total_lines: usize) -> ScrollState {
        ScrollState {
            offset: sat_add_usize(self.offset as int, effective_page(self.page_size) as int) as usize,
            page_size: self.page_size,
        }.clamped(total_lines)
    }

    /// Sets the page size (at least one line) and clamps the offset.
    pub fn set_page_size(&mut self, page_size: usize, total_lines: usize)
        ensures
            *final(self) == old(self).with_page_size(page_size, total_lines),
            final(self).page_size >= 1,
            final(self).offset <= max_offset_for(final(self).page_size, total_lines),
    {
        self.page_size = if page_size >= 1 {
            page_size
        } else {
            1
        };
        self.clamp(total_lines);
    }

    /// Brings the offset down to the last full page when it is past it.
    pub fn clamp(&mut self, total_lines: usize)
        ensures
            *final(self) == old(self).clamped(total_lines),
            final(self).offset <= max_offset_for(final(self).page_size, total_lines),
    {
        let max_offset = self.max_offset(total_lines);
        if self.offset > max_offset {
            self.offset = max_offset;
        }
    }

    /// Moves the offset by `delta` lines, saturating, then clamps it.
    pub fn scroll_by(&mut self, delta: i32, total_lines: usize)
        ensures
            *final(self) == old(self).scrolled(delta, total_lines),
            final(self).offset <= max_offset_for(final(self).page_size, total_lines),
    {
        if delta < 0 {
            let step: usize = if delta == i32::MIN {
                2147483648usize
            } else {
                (-delta) as usize
            };
            self.offset = self.offset.saturating_sub(step);
        } else {
            self.offset = self.offset.saturating_add(delta as usize);
        }
        self.clamp(total_lines);
    }

    /// Moves up by one page.
    pub fn page_up(&mut self, total_lines: usize)
        ensures
            *final(self) == old(self).paged_up(total_lines),
            final(self).offset as int == min_int(
                sat_sub(old(self).offset as int, effective_page(old(self).page_size) as int),
                max_offset_for(old(self).page_size, total_lines) as int,
            ),
            final(self).page_size == old(self).page_size,
    {
        let page = if self.page_size >= 1 {
            self.page_size
        } else {
            1
        };
        self.offset = self.offset.saturating_sub(page);
        self.clamp(total_lines);
    }

    /// Moves down by one page: the offset becomes the smaller of the offset
    /// plus the page (saturating) and the last full page.
    pub fn page_down(&mut self, total_lines: usize)
        ensures
            *final(self) == old(self).paged_down(total_lines),
            final(self).offset as int == min_int(
                sat_add_usize(old(self).offset as int, effective_page(old(self).page_size) as int),
                max_offset_for(old(self).page_size, total_lines) as int,
            ),
            final(self).page_size == old(self).page_size,
    {
        let page = if self.page_size >= 1 {
            self.page_size
        } else {
            1
        };
        self.offset = self.offset.saturating_add(page);
        self.clamp(total_lines);
    }

    /// Jumps to the first line.
    pub fn home(&mut self)
        ensures
            final(self).offset == 0,
            final(self).page_size == old(self).page_size,
    {
        self.offset = 0;
    }

    /// Jumps to the last full page.
    pub fn end(&mut self, total_lines: usize)
        ensures
            final(self).offset == max_offset_for(old(self).page_size, total_lines),
            final(self).page_size == old(self).page_size,
    {
        self.offset = self.max_offset(total_lines);
    }

    /// The largest offset that still shows a full page.
    pub fn max_offset(&self, total_lines: usize) -> (r: usize)
        ensures
            r == max_offset_for(self.page_size, total_lines),
    {
        let page = if self.page_size >= 1 {
            self.page_size
        } else {
            1
        };
        total_lines.saturating_sub(page)
    }
}

// ---------------------------------------------------------------------------
// Laws
// ---------------------------------------------------------------------------

/// Scrolling by `delta` lines puts the first line at the offset plus
/// `delta`, kept between 0 and the last full page (the line count less the
/// page, at least one line, or 0): a positive `delta` never moves up, a
/// negative one never moves down.
pub proof fn lemma_scrolled_offset(s: ScrollState, delta: i32, total_lines: usize)
    ensures
        ({
            let page: int = if s.page_size >= 1 {
                s.page_size as int
            } else {
                1
            };
            let last: int = if total_lines > page {
                total_lines - page
            } else {
                0
            };
            let moved: int = s.offset + delta;
            &&& s.scrolled(delta, total_lines).offset == if moved <= 0 {
                0
            } else if moved >= last {
                last
            } else {
                moved
            }
            &&& s.scrolled(delta, total_lines).page_size == s.page_size
            &&& s.offset <= last && delta >= 0 ==> s.scrolled(delta, total_lines).offset >= s.offset
            &&& delta <= 0 ==> s.scrolled(delta, total_lines).offset <= s.offset
        }),
{
}

/// Clamping twice is clamping once.
pub proof fn lemma_clamp_idempotent(s: ScrollState, total_lines: usize)
    ensures
        s.clamped(total_lines).clamped(total_lines) == s.clamped(total_lines),
        s.clamped(total_lines).offset <= max_offset_for(s.page_size, total_lines),
        s.clamped(total_lines).page_size == s.page_size,
{
}

/// An offset within range is left alone by clamping.
pub proof fn lemma_clamp_keeps_valid(s: ScrollState, total_lines: usize)
    requires
        s.offset <= max_offset_for(s.page_size, total_lines),
    ensures
        s.clamped(total_lines) == s,
{
}

/// From an offset within the scrollable range, scrolling by `delta` and back
/// by `-delta` returns to the start when the first move stays within it.
pub proof fn lemma_scroll_back_and_forth(s: ScrollState, delta: i32, total_lines: usize)
    requires
        delta != i32::MIN,
        s.offset <= max_offset_for(s.page_size, total_lines),
        0 <= s.offset + delta <= max_offset_for(s.page_size, total_lines),
    ensures
        s.scrolled(delta, total_lines).scrolled((-delta) as i32, total_lines) == s,
{
    let back = (-delta) as i32;
    assert(back as int == -(delta as int));
}

/// Paging down then up returns to the start when the page down stays within
/// the scrollable range.
pub proof fn lemma_page_down_then_up(s: ScrollState, total_lines: usize)
    requires
        s.offset + effective_page(s.page_size) <= max_offset_for(s.page_size, total_lines),
    ensures
        s.paged_down(total_lines).paged_up(total_lines) == s,
{
}

} // verus!
