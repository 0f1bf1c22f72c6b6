use omniconsole::ui::labels::{
    cursor_status, exited_title, new_tab_title, on_off, rtl_button_label, tab_label,
};

#[test]
fn tab_label_marks_forced_rtl() {
    assert_eq!(tab_label("Terminal 1", false), "Terminal 1");
    assert_eq!(tab_label("Terminal 1", true), "Terminal 1 [RTL]");
    assert_eq!(tab_label("", true), " [RTL]");
}

#[test]
fn exited_title_appends_marker() {
    assert_eq!(exited_title("PowerShell"), "PowerShell [Exited]");
    assert_eq!(exited_title("PowerShell [Exited]"), "PowerShell [Exited] [Exited]");
}

#[test]
fn new_tab_numbers_follow_open_count() {
    assert_eq!(new_tab_title(0), "Terminal 1");
    assert_eq!(new_tab_title(1), "Terminal 2");
    assert_eq!(new_tab_title(9), "Terminal 10");
    assert_eq!(new_tab_title(1999), "Terminal 2000");
}

#[test]
fn cursor_status_counts_from_one() {
    assert_eq!(cursor_status(0, 0), "Ln 1, Col 1");
    assert_eq!(cursor_status(4, 11), "Ln 12, Col 5");
    assert_eq!(cursor_status(79, 23), "Ln 24, Col 80");
    assert_eq!(cursor_status(u16::MAX, u16::MAX), "Ln 65536, Col 65536");
}

#[test]
fn on_off_labels() {
    assert_eq!(on_off(true), "ON");
    assert_eq!(on_off(false), "OFF");
    assert_eq!(rtl_button_label(true), "RTL: ON");
    assert_eq!(rtl_button_label(false), "RTL: OFF");
}
