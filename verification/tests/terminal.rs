use std::io;

use ratatui::backend::{Backend, ClearType, TestBackend};
use ratatui::buffer::{Buffer, Cell};
use ratatui::layout::{Position, Rect, Size};
use ratatui::terminal::terminal::Terminal;
use ratatui::widgets::Widget;

/// A simple widget that fills the area with a single character
struct FillWidget(char);

impl Widget for FillWidget {
    fn render(self, area: Rect, buf: &mut Buffer) {
        for y in area.top()..area.bottom() {
            for x in area.left()..area.right() {
                buf.cell_mut((x, y)).unwrap().set_symbol(&self.0.to_string());
            }
        }
    }
}

/// A widget that fills each row with a different character starting from given offset
struct RowFillWidgetFrom(u8);

impl Widget for RowFillWidgetFrom {
    fn render(self, area: Rect, buf: &mut Buffer) {
        for y in area.top()..area.bottom() {
            let ch = (self.0 + (y - area.top()) as u8) as char;
            for x in area.left()..area.right() {
                buf.cell_mut((x, y)).unwrap().set_symbol(&ch.to_string());
            }
        }
    }
}

struct ScrollSpyBackend {
    inner: TestBackend,
    draw_calls: usize,
    draw_update_counts: Vec<usize>,
    draw_updates: Vec<Vec<(u16, u16, Cell)>>,
    append_lines_calls: Vec<u16>,
    scroll_region_up_calls: Vec<(std::ops::Range<u16>, u16)>,
    stream_lines_to_scrollback_calls: Vec<(u16, usize, u16)>,
}

impl ScrollSpyBackend {
    fn new(width: u16, height: u16) -> Self {
        Self {
            inner: TestBackend::new(width, height),
            draw_calls: 0,
            draw_update_counts: Vec::new(),
            draw_updates: Vec::new(),
            append_lines_calls: Vec::new(),
            scroll_region_up_calls: Vec::new(),
            stream_lines_to_scrollback_calls: Vec::new(),
        }
    }
}

impl Backend for ScrollSpyBackend {
    fn draw(&mut self, content: &[(u16, u16, Cell)]) -> io::Result<()> {
        self.draw_calls += 1;
        let updates = content.to_vec();
        self.draw_update_counts.push(updates.len());
        self.draw_updates.push(updates.clone());
        self.inner.draw(&updates)
    }

    fn append_lines(&mut self, n: u16) -> io::Result<()> {
        self.append_lines_calls.push(n);
        self.inner.append_lines(n)
    }

    fn stream_lines_to_scrollback(
        &mut self,
        content: &[Cell],
        width: u16,
        line_count: usize,
        screen_height: u16,
        row_wrapped: &[bool],
    ) -> io::Result<()> {
        self.stream_lines_to_scrollback_calls
            .push((width, line_count, screen_height));
        self.inner.stream_lines_to_scrollback(
            content,
            width,
            line_count,
            screen_height,
            row_wrapped,
        )
    }

    fn hide_cursor(&mut self) -> io::Result<()> {
        self.inner.hide_cursor()
    }

    fn show_cursor(&mut self) -> io::Result<()> {
        self.inner.show_cursor()
    }

    fn get_cursor_position(&mut self) -> io::Result<Position> {
        self.inner.get_cursor_position()
    }

    fn set_cursor_position(&mut self, position: Position) -> io::Result<()> {
        self.inner.set_cursor_position(position)
    }

    fn clear(&mut self) -> io::Result<()> {
        self.inner.clear()
    }

    fn clear_region(&mut self, clear_type: ClearType) -> io::Result<()> {
        self.inner.clear_region(clear_type)
    }

    fn size(&self) -> io::Result<Size> {
        self.inner.size()
    }

    fn flush(&mut self) -> io::Result<()> {
        self.inner.flush()
    }

    fn scroll_region_up(&mut self, region: std::ops::Range<u16>, line_count: u16) -> io::Result<()> {
        self.scroll_region_up_calls
            .push((region.clone(), line_count));
        self.inner.scroll_region_up(region, line_count)
    }

    fn scroll_region_down(
        &mut self,
        region: std::ops::Range<u16>,
        line_count: u16,
    ) -> io::Result<()> {
        self.inner.scroll_region_down(region, line_count)
    }
}

#[test]
fn basic_draw() {
    let backend = TestBackend::new(5, 3);
    let mut terminal = Terminal::new(backend).unwrap();

    terminal
        .draw(|frame| {
            frame.render_widget(FillWidget('a'), frame.area());
        })
        .unwrap();

    assert_eq!(
        terminal.backend().buffer_lines(),
        vec!["aaaaa", "aaaaa", "aaaaa"]
    );
}

#[test]
fn set_scroll_up_basic() {
    let backend = TestBackend::new(5, 4);
    let mut terminal = Terminal::new(backend).unwrap();

    // First draw: fill with a, b, c, d
    terminal
        .draw(|frame| {
            frame.render_widget(RowFillWidgetFrom(b'a'), frame.area());
        })
        .unwrap();

    assert_eq!(
        terminal.backend().buffer_lines(),
        vec!["aaaaa", "bbbbb", "ccccc", "ddddd"]
    );
    assert!(terminal.backend().scrollback_lines().is_empty());

    // Second draw: capture the top 2 rows for scrollback, then render c, d, e, f
    terminal
        .draw(|frame| {
            frame.render_widget(RowFillWidgetFrom(b'a'), frame.area());
            frame.set_scroll_up(2);
            frame.render_widget(RowFillWidgetFrom(b'c'), frame.area());
        })
        .unwrap();

    assert_eq!(
        terminal.backend().buffer_lines(),
        vec!["ccccc", "ddddd", "eeeee", "fffff"]
    );
    assert_eq!(terminal.backend().scrollback_lines(), vec!["aaaaa", "bbbbb"]);
}

#[test]
fn set_scroll_up_streams_snapshot_without_absolute_draws() {
    let backend = ScrollSpyBackend::new(5, 4);
    let mut terminal = Terminal::new(backend).unwrap();

    terminal
        .draw(|frame| {
            frame.render_widget(RowFillWidgetFrom(b'a'), frame.area());
        })
        .unwrap();

    terminal
        .draw(|frame| {
            frame.render_widget(RowFillWidgetFrom(b'a'), frame.area());
            frame.set_scroll_up(2);
            frame.render_widget(RowFillWidgetFrom(b'c'), frame.area());
        })
        .unwrap();

    let backend = terminal.backend();
    assert_eq!(backend.stream_lines_to_scrollback_calls, vec![(5, 2, 4)]);
    assert!(backend.append_lines_calls.is_empty());
    assert!(backend.scroll_region_up_calls.is_empty());
    // One draw for the initial frame and one draw for the final redraw after streaming.
    // The scrollback snapshot itself must not be written with absolute-positioned draws.
    assert_eq!(backend.draw_calls, 2);
    assert_eq!(backend.draw_update_counts.len(), 2);
    assert_eq!(
        backend.inner.buffer_lines(),
        vec!["ccccc", "ddddd", "eeeee", "fffff"]
    );
    assert_eq!(backend.inner.scrollback_lines(), vec!["aaaaa", "bbbbb"]);
}

#[test]
fn set_scroll_snapshot_streams_more_than_viewport_height() {
    let backend = ScrollSpyBackend::new(5, 4);
    let mut terminal = Terminal::new(backend).unwrap();

    terminal
        .draw(|frame| {
            let mut content = Vec::new();
            for row in 0..6 {
                let symbol = ((b'a' + row) as char).to_string();
                for _ in 0..5 {
                    let mut cell = Cell::default();
                    cell.set_symbol(&symbol);
                    content.push(cell);
                }
            }

            frame.set_scroll_snapshot(content, 5, 6, vec![false; 6]);
            frame.render_widget(RowFillWidgetFrom(b'g'), frame.area());
        })
        .unwrap();

    let backend = terminal.backend();
    assert_eq!(backend.stream_lines_to_scrollback_calls, vec![(5, 6, 4)]);
    assert_eq!(
        backend.inner.scrollback_lines(),
        vec!["aaaaa", "bbbbb", "ccccc", "ddddd", "eeeee", "fffff"]
    );
    assert_eq!(
        backend.inner.buffer_lines(),
        vec!["ggggg", "hhhhh", "iiiii", "jjjjj"]
    );
}

#[test]
fn set_scroll_up_diffs_against_post_stream_screen_state() {
    let backend = ScrollSpyBackend::new(5, 4);
    let mut terminal = Terminal::new(backend).unwrap();

    terminal
        .draw(|frame| {
            frame.render_widget(RowFillWidgetFrom(b'a'), frame.area());
        })
        .unwrap();

    terminal
        .draw(|frame| {
            frame.render_widget(RowFillWidgetFrom(b'a'), frame.area());
            frame.set_scroll_up(2);
            // Rows c/d match what the terminal will physically show after streaming:
            // old rows c/d shifted to the top. Rows e/f must still be drawn.
            frame.render_widget(RowFillWidgetFrom(b'c'), frame.area());
        })
        .unwrap();

    assert_eq!(
        terminal.backend().inner.buffer_lines(),
        vec!["ccccc", "ddddd", "eeeee", "fffff"]
    );
    assert_eq!(
        terminal.backend().inner.scrollback_lines(),
        vec!["aaaaa", "bbbbb"]
    );
    let final_updates = terminal.backend().draw_updates.last().unwrap();
    assert!(
        final_updates.iter().all(|(_, y, _)| *y >= 2),
        "rows already present after streaming should not be redrawn"
    );
    assert!(
        final_updates
            .iter()
            .any(|(_, y, cell)| *y == 2 && cell.symbol() == "e"),
        "row e must be drawn after streaming"
    );
    assert!(
        final_updates
            .iter()
            .any(|(_, y, cell)| *y == 3 && cell.symbol() == "f"),
        "row f must be drawn after streaming"
    );
}

#[test]
fn set_scroll_up_full_screen() {
    let backend = TestBackend::new(4, 3);
    let mut terminal = Terminal::new(backend).unwrap();

    // First draw
    terminal
        .draw(|frame| {
            frame.render_widget(RowFillWidgetFrom(b'a'), frame.area());
        })
        .unwrap();

    assert_eq!(
        terminal.backend().buffer_lines(),
        vec!["aaaa", "bbbb", "cccc"]
    );

    // Scroll entire screen
    terminal
        .draw(|frame| {
            frame.render_widget(RowFillWidgetFrom(b'a'), frame.area());
            frame.set_scroll_up(3);
            frame.render_widget(FillWidget('x'), frame.area());
        })
        .unwrap();

    assert_eq!(
        terminal.backend().buffer_lines(),
        vec!["xxxx", "xxxx", "xxxx"]
    );
    assert_eq!(
        terminal.backend().scrollback_lines(),
        vec!["aaaa", "bbbb", "cccc"]
    );
}

#[test]
fn set_scroll_up_with_modal_overlay() {
    // Test that modals rendered AFTER set_scroll_up don't go to scrollback
    let backend = TestBackend::new(5, 3);
    let mut terminal = Terminal::new(backend).unwrap();

    // First draw: log content
    terminal
        .draw(|frame| {
            frame.render_widget(RowFillWidgetFrom(b'a'), frame.area());
        })
        .unwrap();

    assert_eq!(
        terminal.backend().buffer_lines(),
        vec!["aaaaa", "bbbbb", "ccccc"]
    );

    // Second draw: scroll by 1, then overlay a "modal" on row 1
    terminal
        .draw(|frame| {
            // Render the content to be scrolled (row 'a')
            for x in 0..5 {
                frame.buffer_mut().cell_mut((x, 0)).unwrap().set_symbol("a");
            }
            // Capture row 0 for scrollback
            frame.set_scroll_up(1);
            // Now render new content
            frame.render_widget(RowFillWidgetFrom(b'b'), frame.area());
            // Render a "modal" that overlays row 1
            for x in 0..5 {
                frame.buffer_mut().cell_mut((x, 1)).unwrap().set_symbol("M");
            }
        })
        .unwrap();

    // Screen shows: b, M, d (modal on row 1)
    assert_eq!(
        terminal.backend().buffer_lines(),
        vec!["bbbbb", "MMMMM", "ddddd"]
    );
    // Scrollback has 'a' (the captured content, not the modal)
    assert_eq!(terminal.backend().scrollback_lines(), vec!["aaaaa"]);
}

#[test]
fn set_scroll_up_zero_is_noop() {
    let backend = TestBackend::new(4, 2);
    let mut terminal = Terminal::new(backend).unwrap();

    terminal
        .draw(|frame| {
            frame.render_widget(RowFillWidgetFrom(b'a'), frame.area());
        })
        .unwrap();

    // Scroll by 0 should have no effect
    terminal
        .draw(|frame| {
            frame.set_scroll_up(0);
            frame.render_widget(FillWidget('x'), frame.area());
        })
        .unwrap();

    assert_eq!(terminal.backend().buffer_lines(), vec!["xxxx", "xxxx"]);
    assert!(terminal.backend().scrollback_lines().is_empty());
}

#[test]
fn set_scroll_up_clamped_to_height() {
    let backend = TestBackend::new(4, 3);
    let mut terminal = Terminal::new(backend).unwrap();

    terminal
        .draw(|frame| {
            frame.render_widget(RowFillWidgetFrom(b'a'), frame.area());
        })
        .unwrap();

    // Scroll by more than height should be clamped
    terminal
        .draw(|frame| {
            frame.render_widget(RowFillWidgetFrom(b'a'), frame.area());
            frame.set_scroll_up(100); // Way more than height of 3
            frame.render_widget(FillWidget('x'), frame.area());
        })
        .unwrap();

    assert_eq!(
        terminal.backend().buffer_lines(),
        vec!["xxxx", "xxxx", "xxxx"]
    );
    // All 3 lines should be in scrollback
    assert_eq!(
        terminal.backend().scrollback_lines(),
        vec!["aaaa", "bbbb", "cccc"]
    );
}

#[test]
fn set_scroll_up_multiple_calls_updates_snapshot() {
    let backend = TestBackend::new(4, 3);
    let mut terminal = Terminal::new(backend).unwrap();

    terminal
        .draw(|frame| {
            frame.render_widget(RowFillWidgetFrom(b'a'), frame.area());
        })
        .unwrap();

    terminal
        .draw(|frame| {
            // First snapshot with 'x' content
            for x in 0..4 {
                frame.buffer_mut().cell_mut((x, 0)).unwrap().set_symbol("x");
            }
            frame.set_scroll_up(1);

            // Second snapshot overwrites with 'y' content
            for x in 0..4 {
                frame.buffer_mut().cell_mut((x, 0)).unwrap().set_symbol("y");
            }
            frame.set_scroll_up(1);

            // Final content
            frame.render_widget(RowFillWidgetFrom(b'b'), frame.area());
        })
        .unwrap();

    assert_eq!(
        terminal.backend().buffer_lines(),
        vec!["bbbb", "cccc", "dddd"]
    );
    // Scrollback should have 'y' (the last captured content)
    assert_eq!(terminal.backend().scrollback_lines(), vec!["yyyy"]);
}
