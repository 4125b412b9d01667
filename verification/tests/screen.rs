use gentei_janken::text::decimal_string;
use gentei_janken::ui::{
    compute_regions, draw_separator, fit_to_width, write_region_line, Key, KeyInput, KeyResult, PlayerDisplay,
    TermRegion, TermUi,
};

fn press(key: Key) -> KeyInput {
    KeyInput { key, pressed: true, control: false }
}

#[test]
fn layout_of_a_hundred_by_thirty() {
    let l = compute_regions(100, 30);
    assert_eq!(l.title, TermRegion { row: 0, col: 0, width: 100, height: 1 });
    assert_eq!(l.sep1, TermRegion { row: 2, col: 0, width: 100, height: 1 });
    assert_eq!(l.players_l, TermRegion { row: 3, col: 0, width: 30, height: 20 });
    assert_eq!(l.log, TermRegion { row: 3, col: 30, width: 40, height: 20 });
    assert_eq!(l.players_r, TermRegion { row: 3, col: 70, width: 30, height: 20 });
    assert_eq!(l.sep2.row, 23);
    assert_eq!(l.title2.row, 24);
    assert_eq!(l.subtitle2.row, 25);
    assert_eq!(l.sep3.row, 26);
    assert_eq!(l.instruction.row, 27);
    assert_eq!(l.sep4.row, 28);
    assert_eq!(l.input, TermRegion { row: 29, col: 0, width: 100, height: 1 });
}

#[test]
fn layout_of_a_tiny_screen_has_no_middle_rows() {
    let l = compute_regions(9, 7);
    assert_eq!(l.players_l.width, 2);
    assert_eq!(l.log.width, 5);
    assert_eq!(l.players_l.height, 0);
    assert_eq!(l.sep2.row, 0);
    assert_eq!(l.input.row, 6);
}

#[test]
fn fit_cuts_at_the_width() {
    assert_eq!(fit_to_width("hello", 3), "hel");
    assert_eq!(fit_to_width("hello", 10), "hello");
    assert_eq!(fit_to_width("hello", 0), "");
    // Wide characters take two columns each.
    assert_eq!(fit_to_width("日本語", 5), "日本");
    // A control character takes no column.
    assert_eq!(fit_to_width("a\tb", 2), "a\tb");
}

#[test]
fn region_line_is_padded() {
    let region = TermRegion { row: 4, col: 2, width: 5, height: 3 };
    let line = write_region_line(&region, 1, "ab");
    assert_eq!((line.col, line.row, line.clear), (2, 5, false));
    assert_eq!(line.text, "ab   ");
    let line = write_region_line(&region, 0, "abcdefg");
    assert_eq!(line.text, "abcde");
}

#[test]
fn separator_spans_the_region() {
    let line = draw_separator(&TermRegion { row: 7, col: 0, width: 3, height: 1 });
    assert!(line.clear);
    assert_eq!(line.row, 7);
    assert_eq!(line.text, "───");
}

#[test]
fn new_screen_draws_its_frame() {
    let (ui, lines) = TermUi::new(100, 30);
    assert_eq!(lines.len(), 5 + 20);
    assert_eq!(lines[0].text, "─".repeat(100));
    assert_eq!(lines[4].text, format!("│{}│{}", " ".repeat(38), ""));
    assert_eq!(lines[4].row, 3);
    assert_eq!(lines[24].text, "> █");
    assert_eq!(lines[24].row, 29);
    assert!(ui.log_buffer.is_empty());
}

#[test]
fn log_keeps_the_newest_messages() {
    let (mut ui, _) = TermUi::new(100, 30);
    for i in 0..25 {
        ui.push_log(&format!("message {}", i));
    }
    assert_eq!(ui.log_buffer.len(), 20);
    assert_eq!(ui.log_buffer[0], "message 5");
    let lines = ui.push_logs(vec!["last".to_string()]);
    assert_eq!(lines.len(), 20);
    assert_eq!(ui.log_buffer[19], "last");
    assert!(lines[19].text.starts_with("│last "));
    assert!(lines[19].text.ends_with('│'));
}

#[test]
fn log_rows_fill_from_the_bottom() {
    let (mut ui, _) = TermUi::new(100, 30);
    let lines = ui.push_log("hello");
    assert_eq!(lines[0].text, format!("│{}│", " ".repeat(38)));
    assert_eq!(lines[19].text, format!("│hello{}│", " ".repeat(33)));
    assert_eq!(lines[19].row, 22);
}

#[test]
fn resize_trims_the_log() {
    let (mut ui, _) = TermUi::new(100, 30);
    for i in 0..10 {
        ui.push_log(&format!("m{}", i));
    }
    let lines = ui.on_resize(100, 15);
    assert_eq!(ui.layout.log.height, 5);
    assert_eq!(ui.log_buffer.len(), 5);
    assert_eq!(ui.log_buffer[0], "m5");
    assert_eq!(lines.len(), 5 + 5);
}

#[test]
fn keys_edit_and_submit_the_line() {
    let (mut ui, _) = TermUi::new(100, 30);
    assert!(ui.handle_key(&press(Key::Char('a'))).is_none());
    assert!(ui.handle_key(&press(Key::Char('b'))).is_none());
    assert!(ui.handle_key(&press(Key::Backspace)).is_none());
    assert_eq!(ui.input_buffer, "a");
    assert_eq!(ui.draw_input_line().text, "> a█");
    assert!(ui.handle_key(&KeyInput { key: Key::Char('z'), pressed: false, control: false }).is_none());
    assert_eq!(ui.input_buffer, "a");
    match ui.handle_key(&press(Key::Enter)) {
        Some(KeyResult::Submitted(line)) => assert_eq!(line, "a"),
        _ => panic!("enter submits the line"),
    }
    assert_eq!(ui.input_buffer, "");
    assert!(ui.handle_key(&press(Key::Enter)).is_none());
    assert!(ui.handle_key(&press(Key::Backspace)).is_none());
    assert!(matches!(
        ui.handle_key(&KeyInput { key: Key::Char('c'), pressed: true, control: true }),
        Some(KeyResult::Exit)
    ));
    assert!(ui.handle_key(&press(Key::Other)).is_none());
}

#[test]
fn player_lists_show_as_many_as_fit() {
    let region = TermRegion { row: 3, col: 0, width: 10, height: 4 };
    let players = vec![
        PlayerDisplay { name: "ann".to_string(), status: "*".to_string() },
        PlayerDisplay { name: "bob".to_string(), status: "".to_string() },
        PlayerDisplay { name: "cid".to_string(), status: "".to_string() },
    ];
    let lines = TermUi::render_players(&region, "Title", &players);
    assert_eq!(lines.len(), 4 + 2 + 2);
    assert_eq!(lines[4].text, "Title     ");
    assert_eq!(lines[4].row, 3);
    assert_eq!(lines[5].text, " ".repeat(10));
    assert_eq!(lines[6].text, "ann *     ");
    assert_eq!(lines[6].row, 5);
    assert_eq!(lines[7].text, "bob       ");
}

#[test]
fn titles_go_to_their_rows() {
    let (ui, _) = TermUi::new(20, 12);
    assert_eq!(ui.set_top_title("Room").row, 0);
    assert_eq!(ui.set_top_subtitle("x").row, 1);
    assert_eq!(ui.set_bot_title("x").row, 6);
    assert_eq!(ui.set_bot_subtitle("x").row, 7);
    let line = ui.set_instruction("Ready");
    assert_eq!(line.row, 9);
    assert_eq!(line.text, format!("Ready{}", " ".repeat(15)));
    assert_eq!(ui.draw_all_separators().len(), 4);
}

#[test]
fn decimal_numbers() {
    assert_eq!(decimal_string(0), "0");
    assert_eq!(decimal_string(7), "7");
    assert_eq!(decimal_string(1234), "1234");
    assert_eq!(decimal_string(u64::MAX), u64::MAX.to_string());
}

#[test]
fn padding_counts_columns_not_characters() {
    let region = TermRegion { row: 0, col: 0, width: 6, height: 1 };
    let line = write_region_line(&region, 0, "日本");
    assert_eq!(line.text, "日本  ");
}

#[test]
fn push_logs_keeps_what_push_log_keeps_one_by_one() {
    let (mut together, _) = TermUi::new(100, 30);
    let (mut one_by_one, _) = TermUi::new(100, 30);
    let messages: Vec<String> = (0..40).map(|i| format!("line {}", i)).collect();
    let lines_together = together.push_logs(messages.clone());
    let mut lines_single = Vec::new();
    for m in &messages {
        lines_single = one_by_one.push_log(m);
    }
    assert_eq!(together.log_buffer, one_by_one.log_buffer);
    assert_eq!(lines_together.len(), lines_single.len());
    for (a, b) in lines_together.iter().zip(lines_single.iter()) {
        assert_eq!(a.text, b.text);
        assert_eq!(a.row, b.row);
    }
}

#[test]
fn player_list_may_end_on_the_last_terminal_row() {
    let region = TermRegion { row: u16::MAX - 3, col: 0, width: 6, height: 4 };
    let players = vec![PlayerDisplay { name: "ann".to_string(), status: "*".to_string() }];
    let lines = TermUi::render_players(&region, "T", &players);
    assert_eq!(lines[3].row, u16::MAX);
    assert_eq!(lines[6].text, "ann * ");
}
