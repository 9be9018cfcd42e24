use relativistic_iphone::history::plot;
use relativistic_iphone::history::recent;
use relativistic_iphone::history::History;
use relativistic_iphone::history::TRACE_BASE;
use relativistic_iphone::history::WINDOW;
use relativistic_iphone::surface::HEIGHT;
use relativistic_iphone::surface::WIDTH;

fn surface() -> Vec<u32> {
    vec![0; WIDTH * HEIGHT]
}

fn drawn(buffer: &[u32]) -> Vec<(usize, usize, u32)> {
    let mut found = Vec::new();
    for (i, pixel) in buffer.iter().enumerate() {
        if *pixel != 0 {
            found.push((i % WIDTH, i / WIDTH, *pixel));
        }
    }
    found
}

#[test]
fn window_is_as_wide_as_the_surface() {
    assert_eq!(WINDOW, WIDTH);
    assert_eq!(WINDOW, 200);
}

#[test]
fn history_starts_empty() {
    let history = History::new();
    assert_eq!(history.len(), 0);
    assert_eq!(history.levels(), &[] as &[u8]);
    assert_eq!(history.recent(), &[] as &[u8]);
}

#[test]
fn record_appends_the_level_that_arrived() {
    let mut history = History::new();
    history.record(Some(50));
    history.record(Some(0));
    history.record(Some(255));
    assert_eq!(history.levels(), &[50, 0, 255]);
}

#[test]
fn record_appends_zero_where_none_arrived() {
    let mut history = History::new();
    history.record(None);
    history.record(Some(9));
    history.record(None);
    assert_eq!(history.levels(), &[0, 9, 0]);
}

#[test]
fn history_grows_by_one_with_every_record() {
    let mut history = History::new();
    for tick in 0..1000usize {
        assert_eq!(history.len(), tick);
        if tick % 3 == 0 {
            history.record(Some((tick % 256) as u8));
        } else {
            history.record(None);
        }
        assert_eq!(history.len(), tick + 1);
    }
    assert_eq!(history.levels().len(), 1000);
}

#[test]
fn history_keeps_what_it_held() {
    let mut history = History::new();
    for tick in 0..450usize {
        history.record(Some((tick % 251) as u8));
    }
    let all = history.levels();
    for tick in 0..450usize {
        assert_eq!(all[tick], (tick % 251) as u8);
    }
}

#[test]
fn recent_is_everything_up_to_the_window() {
    let levels: Vec<u8> = (0..200u32).map(|i| (i % 256) as u8).collect();
    assert_eq!(recent(&levels), &levels[..]);
    assert_eq!(recent(&levels[..199]), &levels[..199]);
    assert_eq!(recent(&levels[..1]), &levels[..1]);
    assert_eq!(recent(&[]), &[] as &[u8]);
}

#[test]
fn recent_is_the_newest_window_beyond_it() {
    let levels: Vec<u8> = (0..500u32).map(|i| (i % 256) as u8).collect();
    assert_eq!(recent(&levels[..201]), &levels[1..201]);
    assert_eq!(recent(&levels), &levels[300..500]);
    assert_eq!(recent(&levels).len(), WINDOW);
}

#[test]
fn history_shows_its_newest_window() {
    let mut history = History::new();
    for tick in 0..201usize {
        history.record(Some(tick as u8));
    }
    let shown = history.recent();
    assert_eq!(shown.len(), 200);
    assert_eq!(shown[0], 1);
    assert_eq!(shown[199], 200);
    assert_eq!(history.len(), 201);
}

#[test]
fn plot_puts_level_zero_in_the_bottom_row() {
    let mut buffer = surface();
    plot(&mut buffer, &[0]);
    assert_eq!(drawn(&buffer), vec![(0, 199, 0xffff_0000)]);
}

#[test]
fn plot_raises_a_pixel_by_its_level_and_tints_it() {
    let mut buffer = surface();
    plot(&mut buffer, &[50, 0, 199, 1]);
    let mut expected = vec![
        (0, 149, 0xffff_00c8),
        (1, 199, 0xffff_0000),
        (2, 0, 0xffff_031c),
        (3, 198, 0xffff_0004),
    ];
    expected.sort_by_key(|p| (p.1, p.0));
    assert_eq!(drawn(&buffer), expected);
    assert_eq!(TRACE_BASE, 0xffff_0000);
}

#[test]
fn plot_leaves_out_a_level_above_the_surface() {
    let mut buffer = surface();
    plot(&mut buffer, &[200, 3, 255, 201]);
    assert_eq!(drawn(&buffer), vec![(1, 196, 0xffff_000c)]);
}

#[test]
fn plot_of_nothing_draws_nothing() {
    let mut buffer = surface();
    plot(&mut buffer, &[]);
    assert_eq!(drawn(&buffer), vec![]);
}

#[test]
fn plot_fills_every_column_from_a_full_window() {
    let levels: Vec<u8> = (0..200u32).map(|i| (i % 100) as u8).collect();
    let mut buffer = surface();
    plot(&mut buffer, &levels);
    let found = drawn(&buffer);
    assert_eq!(found.len(), 200);
    for (column, row, color) in found {
        let level = (column % 100) as u32;
        assert_eq!(row as u32, 199 - level);
        assert_eq!(color, 0xffff_0000 + 4 * level);
    }
}

#[test]
fn plot_scrolls_once_the_window_is_full() {
    let mut levels: Vec<u8> = vec![7; 200];
    levels.push(10);
    levels.push(20);
    let mut buffer = surface();
    plot(&mut buffer, &levels);
    assert_eq!(buffer[(199 - 7) * WIDTH], 0xffff_001c);
    assert_eq!(buffer[(199 - 7) * WIDTH + 197], 0xffff_001c);
    assert_eq!(buffer[(199 - 7) * WIDTH + 198], 0);
    assert_eq!(buffer[(199 - 10) * WIDTH + 198], 0xffff_0028);
    assert_eq!(buffer[(199 - 20) * WIDTH + 199], 0xffff_0050);
    assert_eq!(drawn(&buffer).len(), 200);
}

#[test]
fn plot_draws_over_what_was_there() {
    let mut buffer = vec![0x1234_5678u32; WIDTH * HEIGHT];
    plot(&mut buffer, &[5]);
    let changed: Vec<usize> =
        (0..buffer.len()).filter(|i| buffer[*i] != 0x1234_5678).collect();
    assert_eq!(changed, vec![194 * WIDTH]);
    assert_eq!(buffer[194 * WIDTH], 0xffff_0014);
}

#[test]
fn plot_needs_only_the_rows_it_draws_in() {
    let mut buffer = vec![0u32; WIDTH];
    plot(&mut buffer, &[199, 200, 199]);
    assert_eq!(buffer[0], 0xffff_031c);
    assert_eq!(buffer[1], 0);
    assert_eq!(buffer[2], 0xffff_031c);
}
