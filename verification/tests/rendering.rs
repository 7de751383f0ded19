use tmux_table::digits::decimal_string;
use tmux_table::render::{header_row, render_table, rule_row};
use tmux_table::session::TmuxSession;

fn session(name: &str, num_windows: u32, date_created: &str) -> TmuxSession {
    TmuxSession {
        name: name.to_owned(),
        num_windows,
        date_created: date_created.to_owned(),
    }
}

#[test]
fn header_matches_reference_text() {
    assert_eq!(
        header_row(),
        " \x1b[1;32mName        \x1b[0m\x1b[1;37m|\x1b[0m \x1b[1;32mWindows Open \x1b[0m\x1b[1;37m|\x1b[0m \x1b[1;32mDate Created\x1b[0m"
    );
}

#[test]
fn rule_matches_reference_text() {
    assert_eq!(
        rule_row(),
        "\x1b[1;37m---------------------------------------------------------"
    );
}

#[test]
fn row_has_fixed_columns() {
    let s = session("work", 3, "Mon Jan  1 00:00:00 2024");
    assert_eq!(
        s.render_row(),
        " \x1b[1;37mwork        |\x1b[0m \x1b[1;37m3            |\x1b[0m \x1b[1;37mMon Jan  1 00:00:00 2024\x1b[0m"
    );
}

#[test]
fn name_filling_the_column_gets_no_padding() {
    let s = session("exactlydozen", 1, "Tue");
    assert_eq!(s.name.len(), 12);
    assert_eq!(
        s.render_row(),
        " \x1b[1;37mexactlydozen|\x1b[0m \x1b[1;37m1            |\x1b[0m \x1b[1;37mTue\x1b[0m"
    );
}

#[test]
fn long_name_widens_the_column() {
    let s = session("a-very-long-session-name", 2, "Wed");
    assert_eq!(
        s.render_row(),
        " \x1b[1;37ma-very-long-session-name|\x1b[0m \x1b[1;37m2            |\x1b[0m \x1b[1;37mWed\x1b[0m"
    );
}

#[test]
fn wide_count_widens_the_column() {
    let s = session("big", u32::MAX, "Thu");
    assert_eq!(
        s.render_row(),
        " \x1b[1;37mbig         |\x1b[0m \x1b[1;37m4294967295   |\x1b[0m \x1b[1;37mThu\x1b[0m"
    );
}

#[test]
fn empty_table_is_header_and_rule_only() {
    let rows = render_table(&Vec::new());
    assert_eq!(rows.len(), 2);
    assert_eq!(rows[0], header_row());
    assert_eq!(rows[1], rule_row());
}

#[test]
fn table_keeps_input_order() {
    let sessions = vec![
        session("first", 1, "Mon"),
        session("second", 2, "Tue"),
        session("third", 3, "Wed"),
    ];
    let rows = render_table(&sessions);
    assert_eq!(rows.len(), 5);
    assert_eq!(rows[0], header_row());
    assert_eq!(rows[1], rule_row());
    assert_eq!(rows[2], sessions[0].render_row());
    assert_eq!(rows[3], sessions[1].render_row());
    assert_eq!(rows[4], sessions[2].render_row());
    assert!(rows[2].contains("first"));
    assert!(rows[3].contains("second"));
    assert!(rows[4].contains("third"));
}

#[test]
fn decimal_text_is_exact() {
    assert_eq!(decimal_string(0), "0");
    assert_eq!(decimal_string(7), "7");
    assert_eq!(decimal_string(10), "10");
    assert_eq!(decimal_string(305), "305");
    assert_eq!(decimal_string(u32::MAX), "4294967295");
}

#[test]
fn parsed_line_renders_with_its_own_fields() {
    let s = match TmuxSession::new("work: 3 windows (created Mon Jan  1 00:00:00 2024) (attached)")
    {
        Ok(s) => s,
        Err(e) => panic!("parse failed: {:?}", e),
    };
    assert_eq!(
        s.render_row(),
        " \x1b[1;37mwork        |\x1b[0m \x1b[1;37m3            |\x1b[0m \x1b[1;37mMon Jan  1 00:00:00 2024\x1b[0m"
    );
}
