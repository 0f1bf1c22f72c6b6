use omniconsole::config::settings::{get_default_shell, is_new_name};
use omniconsole::config::{CursorStyle, Profile};
use omniconsole::pty::PtyEvent;
use omniconsole::terminal::{Cell, Cursor, Direction};
use omniconsole::ui::input::{key_action, named_key_input, KeyAction, KeyInput, Modifiers, NamedKey};
use omniconsole::ui::tabs::TabList;
use omniconsole::ui::view::{cell_color_indices, display_char, display_direction, is_cursor_cell};

fn plain(p: &Profile, name: &str, command: &str) {
    assert_eq!(p.name, name);
    assert_eq!(p.command, command);
    assert!(p.args.is_empty());
    assert!(p.env.is_empty());
    assert!(p.working_directory.is_none());
    assert!(p.rtl_mode.is_none());
}

#[test]
fn built_in_profiles() {
    plain(&Profile::powershell(), "PowerShell", "powershell.exe");
    plain(&Profile::cmd(), "Command Prompt", "cmd.exe");
    plain(&Profile::bash(), "Bash", "/bin/bash");
    plain(&Profile::zsh(), "Zsh", "/bin/zsh");
}

#[test]
fn default_shell_per_os() {
    assert_eq!(get_default_shell("windows"), "powershell.exe");
    assert_eq!(get_default_shell("macos"), "/bin/zsh");
    assert_eq!(get_default_shell("linux"), "/bin/bash");
    assert_ne!(CursorStyle::Block, CursorStyle::Bar);
}

#[test]
fn pty_events() {
    let e = PtyEvent::Output("x".to_string());
    assert!(matches!(e, PtyEvent::Output(ref s) if s == "x"));
    assert!(matches!(PtyEvent::Exited, PtyEvent::Exited));
}

const NONE: Modifiers = Modifiers { control: false, shift: false, alt: false, logo: false };
const CTRL: Modifiers = Modifiers { control: true, shift: false, alt: false, logo: false };
const CTRL_SHIFT: Modifiers = Modifiers { control: true, shift: true, alt: false, logo: false };

fn ch(s: &str) -> KeyInput {
    KeyInput::Character(s.to_string())
}

#[test]
fn shortcut_keys() {
    assert!(matches!(key_action(&ch("t"), &None, CTRL, 0, false), KeyAction::NewTab));
    assert!(matches!(key_action(&ch("w"), &None, CTRL, 2, false), KeyAction::CloseTab(2)));
    assert!(matches!(key_action(&ch("r"), &None, CTRL_SHIFT, 0, false), KeyAction::ToggleRtl));
    assert!(matches!(key_action(&ch(","), &None, CTRL, 0, false), KeyAction::OpenSettings));
    assert!(matches!(key_action(&ch("t"), &None, CTRL, 0, true), KeyAction::Ignore));
    assert!(matches!(key_action(&ch("r"), &None, CTRL, 0, false), KeyAction::Ignore));
}

#[test]
fn typed_text_and_named_keys() {
    let text = Some("a".to_string());
    assert!(matches!(key_action(&ch("a"), &text, NONE, 0, false), KeyAction::Input(ref s) if s == "a"));
    assert!(matches!(key_action(&ch("a"), &text, CTRL, 0, false), KeyAction::Ignore));
    assert!(matches!(key_action(&KeyInput::Named(NamedKey::Enter), &None, NONE, 0, false),
        KeyAction::Input(ref s) if s == "\r"));
    assert!(matches!(key_action(&KeyInput::Named(NamedKey::ArrowLeft), &None, CTRL, 0, false),
        KeyAction::Input(ref s) if s == "\x1b[D"));
    assert!(matches!(key_action(&KeyInput::Named(NamedKey::Other), &None, NONE, 0, false), KeyAction::Ignore));
    assert!(matches!(key_action(&KeyInput::Unidentified, &Some(String::new()), NONE, 0, false), KeyAction::Ignore));
    let expected = [
        (NamedKey::Enter, "\r"), (NamedKey::Backspace, "\x08"), (NamedKey::Tab, "\t"),
        (NamedKey::Escape, "\x1b"), (NamedKey::ArrowUp, "\x1b[A"), (NamedKey::ArrowDown, "\x1b[B"),
        (NamedKey::ArrowRight, "\x1b[C"), (NamedKey::ArrowLeft, "\x1b[D"), (NamedKey::Home, "\x1b[H"),
        (NamedKey::End, "\x1b[F"), (NamedKey::PageUp, "\x1b[5~"), (NamedKey::PageDown, "\x1b[6~"),
        (NamedKey::Delete, "\x1b[3~"),
    ];
    for (k, s) in expected {
        assert_eq!(named_key_input(k).as_deref(), Some(s));
    }
    assert_eq!(named_key_input(NamedKey::Other), None);
}

#[test]
fn tab_list_keeps_an_open_tab_active() {
    let mut t: TabList<&str> = TabList::new();
    t.push("a");
    t.push("b");
    t.push("c");
    assert_eq!(t.active, 2);
    t.switch_to(7);
    assert_eq!(t.active, 2);
    t.switch_to(0);
    assert_eq!(t.active, 0);
    assert!(t.close(0));
    assert_eq!(t.items, vec!["b", "c"]);
    assert_eq!(t.active, 0);
    t.switch_to(1);
    assert!(t.close(1));
    assert_eq!(t.active, 0);
    assert!(!t.close(0));
    assert_eq!(t.items, vec!["b"]);
    *t.active_mut().unwrap() = "z";
    assert_eq!(t.items, vec!["z"]);
}

#[test]
fn colors_and_display_direction() {
    let c = Cell { fg: 3, bg: 20, reverse: false, ..Default::default() };
    assert_eq!(cell_color_indices(&c), (3, 15));
    let r = Cell { reverse: true, ..c };
    assert_eq!(cell_color_indices(&r), (15, 3));
    assert_eq!(display_direction(true, Direction::LTR), Direction::RTL);
    assert_eq!(display_direction(false, Direction::Auto), Direction::Auto);
}

#[test]
fn blank_and_empty_cells_draw_as_spaces() {
    assert_eq!(display_char('\0'), ' ');
    assert_eq!(display_char(' '), ' ');
    assert_eq!(display_char('a'), 'a');
    assert_eq!(display_char('\u{FE8D}'), '\u{FE8D}');
}

#[test]
fn cursor_cell_needs_a_visible_cursor_at_the_place() {
    let c = Cursor { x: 3, y: 1, visible: true, blink: true };
    assert!(is_cursor_cell(3, 1, &c));
    assert!(!is_cursor_cell(1, 3, &c));
    assert!(!is_cursor_cell(3, 0, &c));
    let hidden = Cursor { visible: false, ..c };
    assert!(!is_cursor_cell(3, 1, &hidden));
}

#[test]
fn theme_names_are_added_once() {
    let names = vec!["Default".to_string(), "Light".to_string()];
    assert!(!is_new_name(&names, &"Light".to_string()));
    assert!(is_new_name(&names, &"Dracula".to_string()));
    assert!(is_new_name(&[], &"Default".to_string()));
}
