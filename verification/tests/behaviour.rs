use std::io;

use ratatui::backend::{Backend, ClearType, TestBackend};
use ratatui::buffer::{Buffer, Cell};
use ratatui::layout::{Position, Rect, Size};
use ratatui::terminal::inline::inline_viewport_area;
use ratatui::terminal::scroll::scroll_updates;
use ratatui::terminal::terminal::Terminal;
use ratatui::terminal::viewport::{Options, Viewport};
use ratatui::widgets::Widget;

struct RowFill(u8);

impl Widget for RowFill {
    fn render(self, area: Rect, buf: &mut Buffer) {
        for y in area.top()..area.bottom() {
            let ch = (self.0 + (y - area.top()) as u8) as char;
            for x in area.left()..area.right() {
                buf.cell_mut((x, y)).unwrap().set_symbol(&ch.to_string());
            }
        }
    }
}

struct CountingBackend {
    inner: TestBackend,
    update_counts: Vec<usize>,
}

impl Backend for CountingBackend {
    fn draw(&mut self, content: &[(u16, u16, Cell)]) -> io::Result<()> {
        self.update_counts.push(content.len());
        self.inner.draw(content)
    }
    fn append_lines(&mut self, n: u16) -> io::Result<()> {
        self.inner.append_lines(n)
    }
    fn hide_cursor(&mut self) -> io::Result<()> {
        self.inner.hide_cursor()
    }
    fn show_cursor(&mut self) -> io::Result<()> {
        self.inner.show_cursor()
    }
    fn get_cursor_position(&mut self) -> io::Result<Position> {
        self.inner.get_cursor_position()
    }
    fn set_cursor_position(&mut self, position: Position) -> io::Result<()> {
        self.inner.set_cursor_position(position)
    }
    fn clear(&mut self) -> io::Result<()> {
        self.inner.clear()
    }
    fn clear_region(&mut self, clear_type: ClearType) -> io::Result<()> {
        self.inner.clear_region(clear_type)
    }
    fn size(&self) -> io::Result<Size> {
        self.inner.size()
    }
    fn flush(&mut self) -> io::Result<()> {
        self.inner.flush()
    }
    fn scroll_region_up(&mut self, region: std::ops::Range<u16>, n: u16) -> io::Result<()> {
        self.inner.scroll_region_up(region, n)
    }
    fn scroll_region_down(&mut self, region: std::ops::Range<u16>, n: u16) -> io::Result<()> {
        self.inner.scroll_region_down(region, n)
    }
    fn stream_lines_to_scrollback(
        &mut self,
        content: &[Cell],
        width: u16,
        line_count: usize,
        screen_height: u16,
        row_wrapped: &[bool],
    ) -> io::Result<()> {
        self.inner
            .stream_lines_to_scrollback(content, width, line_count, screen_height, row_wrapped)
    }
}

fn filled(area: Rect, rows: &[&str]) -> Buffer {
    let mut buffer = Buffer::empty(area);
    for (y, row) in rows.iter().enumerate() {
        for (x, ch) in row.chars().enumerate() {
            let position = (area.x + x as u16, area.y + y as u16);
            buffer.cell_mut(position).unwrap().set_symbol(&ch.to_string());
        }
    }
    buffer
}

#[test]
fn inline_viewport_area_exact_values() {
    let size = Size::new(10, 10);
    assert_eq!(
        inline_viewport_area(5, size, 0, Position::new(0, 8)),
        Rect { x: 0, y: 5, width: 10, height: 5 }
    );
    assert_eq!(
        inline_viewport_area(5, size, 0, Position::new(0, 2)),
        Rect { x: 0, y: 2, width: 10, height: 5 }
    );
    assert_eq!(
        inline_viewport_area(20, size, 0, Position::new(0, 3)),
        Rect { x: 0, y: 0, width: 10, height: 10 }
    );
    assert_eq!(
        inline_viewport_area(5, size, 2, Position::new(0, 8)),
        Rect { x: 0, y: 5, width: 10, height: 5 }
    );
}

#[test]
fn inline_viewport_stays_within_screen() {
    let size = Size::new(7, 6);
    for height in 0..10u16 {
        for offset in 0..4u16 {
            for y in 0..6u16 {
                let area = inline_viewport_area(height, size, offset, Position::new(3, y));
                assert_eq!(area.width, 7);
                assert!(area.height <= 6 && area.height <= height);
                assert!(area.y + area.height <= 6);
            }
        }
    }
}

#[test]
fn rect_new_keeps_edges_in_range() {
    assert_eq!(
        Rect::new(65530, 1, 10, 3),
        Rect { x: 65530, y: 1, width: 5, height: 3 }
    );
    assert_eq!(Rect::new(1, 2, 3, 4).area(), 12);
    assert_eq!(Rect::new(1, 2, 3, 4).bottom(), 6);
}

#[test]
fn diff_of_equal_buffers_is_empty() {
    let area = Rect::new(0, 0, 3, 2);
    let a = filled(area, &["abc", "def"]);
    let b = filled(area, &["abc", "def"]);
    assert!(a.diff(&b).is_empty());
}

#[test]
fn diff_reports_changed_cells_in_order() {
    let area = Rect::new(2, 1, 3, 2);
    let a = filled(area, &["abc", "def"]);
    let mut b = filled(area, &["abX", "Yef"]);
    let updates = b.diff(&a);
    assert_eq!(updates.len(), 2);
    assert_eq!((updates[0].0, updates[0].1, updates[0].2.symbol()), (4, 1, "c"));
    assert_eq!((updates[1].0, updates[1].1, updates[1].2.symbol()), (2, 2, "d"));
    b.cell_mut((2, 2)).unwrap().set_skip(true);
    let updates = a.diff(&b);
    assert_eq!(updates.len(), 1);
    assert_eq!((updates[0].0, updates[0].1, updates[0].2.symbol()), (4, 1, "X"));
}

#[test]
fn diff_against_invalidated_buffer_reports_every_cell() {
    let area = Rect::new(0, 0, 2, 2);
    let mut previous = Buffer::empty(area);
    previous.invalidate();
    let next = Buffer::empty(area);
    let updates = previous.diff(&next);
    assert_eq!(updates.len(), 4);
    let positions: Vec<(u16, u16)> = updates.iter().map(|u| (u.0, u.1)).collect();
    assert_eq!(positions, vec![(0, 0), (1, 0), (0, 1), (1, 1)]);
}

#[test]
fn applying_a_diff_reproduces_the_next_buffer() {
    let area = Rect::new(0, 0, 3, 2);
    let previous = filled(area, &["abc", "def"]);
    let next = filled(area, &["aXc", "deZ"]);
    let mut backend = TestBackend::new(3, 2);
    backend.draw(&previous.diff(&filled(area, &["abc", "def"]))).unwrap();
    backend.draw(&Buffer::empty(area).diff(&previous)).unwrap();
    assert_eq!(backend.buffer_lines(), vec!["abc", "def"]);
    backend.draw(&previous.diff(&next)).unwrap();
    assert_eq!(backend.buffer_lines(), vec!["aXc", "deZ"]);
}

#[test]
fn scroll_updates_force_the_row_after_a_soft_wrap() {
    let area = Rect::new(0, 0, 2, 2);
    let previous = filled(area, &["ab", "cd"]);
    let mut current = filled(area, &["aB", "cd"]);
    current.cell_mut((1, 0)).unwrap().set_symbol("B").set_soft_wrap(true);
    let updates = scroll_updates(&previous, &current, 2, 2, 0);
    let positions: Vec<(u16, u16)> = updates.iter().map(|u| (u.0, u.1)).collect();
    assert_eq!(positions, vec![(1, 0), (0, 1)]);
}

#[test]
fn scroll_updates_compare_against_rows_moved_up() {
    let area = Rect::new(0, 0, 2, 3);
    let previous = filled(area, &["aa", "bb", "cc"]);
    let current = filled(area, &["bb", "cc", "dd"]);
    let updates = scroll_updates(&previous, &current, 2, 3, 1);
    let positions: Vec<(u16, u16)> = updates.iter().map(|u| (u.0, u.1)).collect();
    assert_eq!(positions, vec![(0, 2), (1, 2)]);
    let all = scroll_updates(&previous, &current, 2, 3, 3);
    assert_eq!(all.len(), 6);
}

#[test]
fn fixed_viewport_draws_into_its_area() {
    let backend = TestBackend::new(6, 4);
    let viewport = Viewport::Fixed(Rect::new(2, 1, 3, 2));
    let mut terminal = Terminal::with_options(backend, Options { viewport }).unwrap();
    assert_eq!(terminal.get_frame().area(), Rect::new(2, 1, 3, 2));
    terminal
        .draw(|frame| frame.render_widget(RowFill(b'p'), frame.area()))
        .unwrap();
    assert_eq!(
        terminal.backend().buffer_lines(),
        vec!["      ", "  ppp ", "  qqq ", "      "]
    );
}

#[test]
fn frame_count_increments_with_each_draw() {
    let mut terminal = Terminal::new(TestBackend::new(3, 1)).unwrap();
    let first = terminal.draw(|_| {}).unwrap().count;
    assert_eq!(first, 0);
    let second = terminal.draw(|frame| assert_eq!(frame.count(), 1)).unwrap();
    assert_eq!(second.count, 1);
    assert_eq!(second.area, Rect::new(0, 0, 3, 1));
}

#[test]
fn failed_render_is_not_counted_or_drawn() {
    let mut terminal = Terminal::new(TestBackend::new(3, 1)).unwrap();
    let result = terminal.try_draw(|frame| {
        frame.render_widget(RowFill(b'a'), frame.area());
        Err(io::Error::other("render failed"))
    });
    assert!(result.is_err());
    assert_eq!(terminal.backend().buffer_lines(), vec!["   "]);
    let completed = terminal
        .try_draw(|frame| {
            frame.render_widget(RowFill(b'a'), frame.area());
            io::Result::Ok(())
        })
        .unwrap();
    assert_eq!(completed.count, 0);
    assert_eq!(terminal.backend().buffer_lines(), vec!["aaa"]);
}

#[test]
fn unchanged_frame_writes_nothing_and_clear_forces_full_redraw() {
    let backend = CountingBackend {
        inner: TestBackend::new(3, 2),
        update_counts: Vec::new(),
    };
    let mut terminal = Terminal::new(backend).unwrap();
    terminal
        .draw(|frame| frame.render_widget(RowFill(b'a'), frame.area()))
        .unwrap();
    terminal
        .draw(|frame| frame.render_widget(RowFill(b'a'), frame.area()))
        .unwrap();
    terminal.clear().unwrap();
    terminal
        .draw(|frame| frame.render_widget(RowFill(b'a'), frame.area()))
        .unwrap();
    assert_eq!(terminal.backend().update_counts, vec![6, 0, 6]);
    assert_eq!(terminal.backend().inner.buffer_lines(), vec!["aaa", "bbb"]);
}

#[test]
fn swap_buffers_exchanges_and_clears() {
    let mut terminal = Terminal::new(TestBackend::new(2, 1)).unwrap();
    terminal.current_buffer_mut().cell_mut((0, 0)).unwrap().set_symbol("z");
    terminal.swap_buffers();
    assert_eq!(terminal.current_buffer_mut().cell((0, 0)).unwrap().symbol(), " ");
    terminal.swap_buffers();
    assert_eq!(terminal.current_buffer_mut().cell((0, 0)).unwrap().symbol(), " ");
}

#[test]
fn frame_cursor_is_placed_after_draw() {
    let mut terminal = Terminal::new(TestBackend::new(4, 3)).unwrap();
    terminal
        .draw(|frame| frame.set_cursor_position(Position::new(2, 1)))
        .unwrap();
    assert_eq!(terminal.get_cursor_position().unwrap(), Position::new(2, 1));
    assert_eq!(terminal.get_cursor().unwrap(), (2, 1));
    terminal.set_cursor(3, 2).unwrap();
    assert_eq!(terminal.get_cursor_position().unwrap(), Position::new(3, 2));
}

#[test]
fn resize_follows_the_requested_area() {
    let mut terminal = Terminal::new(TestBackend::new(4, 3)).unwrap();
    terminal.resize(Rect::new(0, 0, 2, 2)).unwrap();
    assert_eq!(terminal.get_frame().area(), Rect::new(0, 0, 2, 2));
    assert_eq!(terminal.current_buffer_mut().content.len(), 4);
    terminal.autoresize().unwrap();
    assert_eq!(terminal.get_frame().area(), Rect::new(0, 0, 4, 3));
}

#[test]
fn insert_before_pushes_then_scrolls_an_inline_viewport() {
    let backend = TestBackend::new(10, 6);
    let options = Options { viewport: Viewport::Inline(2) };
    let mut terminal = Terminal::with_options(backend, options).unwrap();
    assert_eq!(terminal.get_frame().area(), Rect::new(0, 0, 10, 2));

    terminal
        .insert_before(1, |buf| RowFill(b'x').render(buf.area, buf))
        .unwrap();
    assert_eq!(terminal.get_frame().area(), Rect::new(0, 1, 10, 2));
    assert_eq!(terminal.backend().buffer_lines()[0], "xxxxxxxxxx");

    terminal
        .insert_before(6, |buf| RowFill(b'a').render(buf.area, buf))
        .unwrap();
    assert_eq!(terminal.get_frame().area(), Rect::new(0, 4, 10, 2));
    assert_eq!(
        terminal.backend().scrollback_lines(),
        vec!["xxxxxxxxxx", "aaaaaaaaaa", "bbbbbbbbbb"]
    );
    assert_eq!(
        terminal.backend().buffer_lines(),
        vec![
            "cccccccccc",
            "dddddddddd",
            "eeeeeeeeee",
            "ffffffffff",
            "          ",
            "          "
        ]
    );
}

#[test]
fn insert_before_leaves_other_viewports_alone() {
    let mut terminal = Terminal::new(TestBackend::new(3, 2)).unwrap();
    terminal
        .insert_before(1, |buf| RowFill(b'x').render(buf.area, buf))
        .unwrap();
    assert_eq!(terminal.backend().buffer_lines(), vec!["   ", "   "]);
    assert_eq!(terminal.get_frame().area(), Rect::new(0, 0, 3, 2));
}

#[test]
fn insert_before_with_scrolling_regions_opens_a_gap() {
    let backend = TestBackend::new(10, 6);
    let options = Options { viewport: Viewport::Inline(2) };
    let mut terminal = Terminal::with_options(backend, options).unwrap();
    terminal
        .insert_before_scrolling_regions(1, |buf| RowFill(b'x').render(buf.area, buf))
        .unwrap();
    assert_eq!(terminal.get_frame().area(), Rect::new(0, 1, 10, 2));
    assert_eq!(terminal.backend().buffer_lines()[0], "xxxxxxxxxx");
    assert!(terminal.backend().scrollback_lines().is_empty());
}

#[test]
fn test_backend_append_lines_scrolls_into_scrollback() {
    let mut backend = TestBackend::new(2, 2);
    backend.draw(&Buffer::empty(Rect::new(0, 0, 2, 2)).diff(&filled(Rect::new(0, 0, 2, 2), &["ab", "cd"]))).unwrap();
    backend.set_cursor_position(Position::new(0, 1)).unwrap();
    backend.append_lines(1).unwrap();
    assert_eq!(backend.scrollback_lines(), vec!["ab"]);
    assert_eq!(backend.buffer_lines(), vec!["cd", "  "]);
    assert_eq!(backend.get_cursor_position().unwrap(), Position::new(1, 1));
}

#[test]
fn test_backend_clear_regions() {
    let area = Rect::new(0, 0, 3, 2);
    let content = Buffer::empty(area).diff(&filled(area, &["abc", "def"]));
    let mut backend = TestBackend::new(3, 2);
    backend.draw(&content).unwrap();
    backend.set_cursor_position(Position::new(1, 0)).unwrap();
    backend.clear_region(ClearType::UntilNewLine).unwrap();
    assert_eq!(backend.buffer_lines(), vec!["a  ", "def"]);
    backend.draw(&content).unwrap();
    backend.clear_region(ClearType::AfterCursor).unwrap();
    assert_eq!(backend.buffer_lines(), vec!["a  ", "   "]);
    backend.draw(&content).unwrap();
    backend.clear_region(ClearType::BeforeCursor).unwrap();
    assert_eq!(backend.buffer_lines(), vec!["  c", "def"]);
    backend.draw(&content).unwrap();
    backend.set_cursor_position(Position::new(0, 1)).unwrap();
    backend.clear_region(ClearType::CurrentLine).unwrap();
    assert_eq!(backend.buffer_lines(), vec!["abc", "   "]);
    backend.clear_region(ClearType::All).unwrap();
    assert_eq!(backend.buffer_lines(), vec!["   ", "   "]);
}

#[test]
fn test_backend_scroll_regions() {
    let area = Rect::new(0, 0, 2, 3);
    let mut backend = TestBackend::new(2, 3);
    backend.draw(&Buffer::empty(area).diff(&filled(area, &["aa", "bb", "cc"]))).unwrap();
    backend.scroll_region_down(1..3, 1).unwrap();
    assert_eq!(backend.buffer_lines(), vec!["aa", "  ", "bb"]);
    backend.scroll_region_up(0..2, 1).unwrap();
    assert_eq!(backend.buffer_lines(), vec!["  ", "  ", "bb"]);
    assert_eq!(backend.scrollback_lines(), vec!["aa"]);
}

fn fill_screen(backend: &mut TestBackend, rows: &[&str]) {
    let mut updates = Vec::new();
    for (y, row) in rows.iter().enumerate() {
        for (x, ch) in row.chars().enumerate() {
            let mut cell = Cell::empty();
            cell.set_symbol(&ch.to_string());
            updates.push((x as u16, y as u16, cell));
        }
    }
    backend.draw(&updates).unwrap();
}

#[test]
fn clear_blanks_from_the_viewport_down() {
    let viewport = Viewport::Fixed(Rect::new(1, 1, 2, 1));
    let mut terminal = Terminal::with_options(TestBackend::new(4, 3), Options { viewport }).unwrap();
    fill_screen(terminal.backend_mut(), &["abcd", "efgh", "ijkl"]);
    terminal.clear().unwrap();
    assert_eq!(terminal.backend().buffer_lines(), vec!["abcd", "    ", "    "]);

    let mut terminal = Terminal::new(TestBackend::new(3, 2)).unwrap();
    fill_screen(terminal.backend_mut(), &["abc", "def"]);
    terminal.clear().unwrap();
    assert_eq!(terminal.backend().buffer_lines(), vec!["   ", "   "]);
}

#[test]
fn cleared_inline_viewport_blanks_from_its_corner() {
    let mut backend = TestBackend::new(3, 3);
    backend.set_cursor_position(Position::new(0, 1)).unwrap();
    let viewport = Viewport::Inline(1);
    let mut terminal = Terminal::with_options(backend, Options { viewport }).unwrap();
    assert_eq!(terminal.get_frame().area(), Rect::new(0, 1, 3, 1));
    fill_screen(terminal.backend_mut(), &["abc", "def", "ghi"]);
    terminal.clear().unwrap();
    assert_eq!(terminal.backend().buffer_lines(), vec!["abc", "   ", "   "]);
}

#[test]
fn insert_before_with_scrolling_regions_keeps_the_viewport_on_screen() {
    let backend = TestBackend::new(5, 6);
    let options = Options { viewport: Viewport::Inline(2) };
    let mut terminal = Terminal::with_options(backend, options).unwrap();
    terminal
        .draw(|frame| frame.render_widget(RowFill(b'p'), frame.area()))
        .unwrap();
    terminal
        .insert_before_scrolling_regions(2, |buf| RowFill(b'x').render(buf.area, buf))
        .unwrap();
    assert_eq!(terminal.get_frame().area(), Rect::new(0, 2, 5, 2));
    assert_eq!(
        terminal.backend().buffer_lines(),
        vec!["xxxxx", "yyyyy", "ppppp", "qqqqq", "     ", "     "]
    );
}

#[test]
fn failed_render_returns_the_callback_error_converted() {
    let mut terminal = Terminal::new(TestBackend::new(3, 1)).unwrap();
    let result = terminal.try_draw(|frame| {
        frame.render_widget(RowFill(b'a'), frame.area());
        Err(io::Error::new(io::ErrorKind::InvalidData, "no data"))
    });
    let error = match result {
        Err(e) => e,
        Ok(_) => panic!("the render failed"),
    };
    assert_eq!(error.kind(), io::ErrorKind::InvalidData);
    assert_eq!(error.to_string(), "no data");
    assert_eq!(terminal.backend().buffer_lines(), vec!["   "]);
    assert!(terminal.backend().scrollback_lines().is_empty());
    assert_eq!(terminal.get_frame().count(), 0);
}

#[test]
fn test_backend_records_the_wrap_flags_of_streamed_rows() {
    let mut backend = TestBackend::new(2, 3);
    let content = vec![Cell::empty(); 6];
    backend
        .stream_lines_to_scrollback(&content, 2, 3, 3, &[true, false])
        .unwrap();
    assert_eq!(backend.streamed_wraps(), vec![true, false, false]);
    assert_eq!(backend.scrollback_lines(), vec!["  ", "  ", "  "]);
}

#[test]
fn insert_before_with_scrolling_regions_pushes_rows_above_into_scrollback() {
    let backend = TestBackend::new(10, 6);
    let options = Options { viewport: Viewport::Inline(2) };
    let mut terminal = Terminal::with_options(backend, options).unwrap();
    terminal
        .insert_before_scrolling_regions(6, |buf| RowFill(b'a').render(buf.area, buf))
        .unwrap();
    assert_eq!(terminal.get_frame().area(), Rect::new(0, 4, 10, 2));
    assert_eq!(
        terminal.backend().scrollback_lines(),
        vec!["aaaaaaaaaa", "bbbbbbbbbb"]
    );
    assert_eq!(
        terminal.backend().buffer_lines(),
        vec![
            "cccccccccc",
            "dddddddddd",
            "eeeeeeeeee",
            "ffffffffff",
            "          ",
            "          "
        ]
    );
}

#[test]
fn failed_render_error_is_converted_into_an_io_error() {
    let mut terminal = Terminal::new(TestBackend::new(2, 1)).unwrap();
    let result = terminal.try_draw(|_| Err(io::ErrorKind::TimedOut));
    match result {
        Err(e) => assert_eq!(e.kind(), io::ErrorKind::TimedOut),
        Ok(_) => panic!("the render failed"),
    }
    assert_eq!(terminal.backend().buffer_lines(), vec!["  "]);
}
