use time_ledger::scroll_state::ScrollState;

#[test]
fn set_page_size_keeps_page_size_at_least_one() {
    let mut scroll = ScrollState {
        offset: 0,
        page_size: 3,
    };
    scroll.set_page_size(0, 10);
    assert_eq!(scroll.page_size, 1);
}

#[test]
fn clamp_limits_offset_to_last_page() {
    let mut scroll = ScrollState {
        offset: 20,
        page_size: 5,
    };
    scroll.clamp(9);
    assert_eq!(scroll.offset, 4);
}

#[test]
fn scroll_by_moves_and_clamps() {
    let mut scroll = ScrollState {
        offset: 2,
        page_size: 3,
    };
    scroll.scroll_by(10, 8);
    assert_eq!(scroll.offset, 5);
    scroll.scroll_by(-10, 8);
    assert_eq!(scroll.offset, 0);
}

#[test]
fn page_navigation_uses_page_size() {
    let mut scroll = ScrollState {
        offset: 6,
        page_size: 4,
    };
    scroll.page_up(20);
    assert_eq!(scroll.offset, 2);
    scroll.page_down(20);
    assert_eq!(scroll.offset, 6);
}

#[test]
fn home_and_end_jump_to_bounds() {
    let mut scroll = ScrollState {
        offset: 6,
        page_size: 4,
    };
    scroll.home();
    assert_eq!(scroll.offset, 0);
    scroll.end(15);
    assert_eq!(scroll.offset, 11);
}

#[test]
fn max_offset_is_zero_when_content_fits() {
    let scroll = ScrollState {
        offset: 0,
        page_size: 10,
    };
    assert_eq!(scroll.max_offset(6), 0);
}

#[test]
fn scroll_back_and_forth_returns_to_start() {
    let mut scroll = ScrollState {
        offset: 3,
        page_size: 2,
    };
    scroll.scroll_by(4, 12);
    assert_eq!(scroll.offset, 7);
    scroll.scroll_by(-4, 12);
    assert_eq!(scroll.offset, 3);
}

#[test]
fn zero_page_size_pages_by_one_line() {
    let mut scroll = ScrollState {
        offset: 5,
        page_size: 0,
    };
    scroll.page_up(20);
    assert_eq!(scroll.offset, 4);
    scroll.page_down(20);
    assert_eq!(scroll.offset, 5);
    assert_eq!(scroll.max_offset(20), 19);
}

#[test]
fn scroll_saturates_at_top() {
    let mut scroll = ScrollState {
        offset: 1,
        page_size: 3,
    };
    scroll.scroll_by(i32::MIN, 100);
    assert_eq!(scroll.offset, 0);
}

#[test]
fn large_pages_move_by_the_whole_page() {
    let mut s = ScrollState {
        offset: 0,
        page_size: 1usize << 31,
    };
    s.page_down(1usize << 33);
    assert_eq!(s.offset, 1usize << 31);
    s.page_down(1usize << 33);
    assert_eq!(s.offset, 1usize << 32);
    s.page_up(1usize << 33);
    assert_eq!(s.offset, 1usize << 31);
    let mut t = ScrollState {
        offset: usize::MAX - 1,
        page_size: usize::MAX,
    };
    t.page_down(usize::MAX);
    assert_eq!(t.offset, 0);
    t.page_up(usize::MAX);
    assert_eq!(t.offset, 0);
}
