use vstd::prelude::*;

verus! {

/// The named keys that the terminal sends sequences for.
#[derive(Debug, Clone, Copy, PartialEq, Eq, Structural)]
pub enum NamedKey {
    Enter,
    Backspace,
    Tab,
    Escape,
    ArrowUp,
    ArrowDown,
    ArrowRight,
    ArrowLeft,
    Home,
    End,
    PageUp,
    PageDown,
    Delete,
    Other,
}

/// A pressed key: a character key with its text, a named key, or another.
#[derive(Debug)]
pub enum KeyInput {
    Character(String),
    Named(NamedKey),
    Unidentified,
}

/// The modifier keys held down.
#[derive(Debug, Clone, Copy, PartialEq, Eq, Structural)]
pub struct Modifiers {
    pub control: bool,
    pub shift: bool,
    pub alt: bool,
    pub logo: bool,
}

/// What a key press asks for.
#[derive(Debug)]
pub enum KeyAction {
    NewTab,
    CloseTab(usize),
    ToggleRtl,
    OpenSettings,
    /// Text to send to the shell.
    Input(String),
    Ignore,
}

/// The sequence that a named key sends to the shell, if any.
pub open spec fn spec_named_key_input(key: NamedKey) -> Option<Seq<char>> {
    match key {
        NamedKey::Enter => Some("\r"@),
        NamedKey::Backspace => Some("\x08"@),
        NamedKey::Tab => Some("\t"@),
        NamedKey::Escape => Some("\x1b"@),
        NamedKey::ArrowUp => Some("\x1b[A"@),
        NamedKey::ArrowDown => Some("\x1b[B"@),
        NamedKey::ArrowRight => Some("\x1b[C"@),
        NamedKey::ArrowLeft => Some("\x1b[D"@),
        NamedKey::Home => Some("\x1b[H"@),
        NamedKey::End => Some("\x1b[F"@),
        NamedKey::PageUp => Some("\x1b[5~"@),
        NamedKey::PageDown => Some("\x1b[6~"@),
        NamedKey::Delete => Some("\x1b[3~"@),
        NamedKey::Other => None,
    }
}

/// The sequence that a named key sends to the shell, if any.
pub fn named_key_input(key: NamedKey) -> (r: Option<String>)
    ensures
        (match r {
            Some(s) => Some(s@),
            None => None,
        }) == spec_named_key_input(key),
{
    match key {
        NamedKey::Enter => Some("\r".to_string()),
        NamedKey::Backspace => Some("\x08".to_string()),
        NamedKey::Tab => Some("\t".to_string()),
        NamedKey::Escape => Some("\x1b".to_string()),
        NamedKey::ArrowUp => Some("\x1b[A".to_string()),
        NamedKey::ArrowDown => Some("\x1b[B".to_string()),
        NamedKey::ArrowRight => Some("\x1b[C".to_string()),
        NamedKey::ArrowLeft => Some("\x1b[D".to_string()),
        NamedKey::Home => Some("\x1b[H".to_string()),
        NamedKey::End => Some("\x1b[F".to_string()),
        NamedKey::PageUp => Some("\x1b[5~".to_string()),
        NamedKey::PageDown => Some("\x1b[6~".to_string()),
        NamedKey::Delete => Some("\x1b[3~".to_string()),
        NamedKey::Other => None,
    }
}

/// What a key press asks for, as a value.
pub enum KeyActionModel {
    NewTab,
    CloseTab(usize),
    ToggleRtl,
    OpenSettings,
    Input(Seq<char>),
    Ignore,
}

impl View for KeyAction {
    type V = KeyActionModel;

    open spec fn view(&self) -> KeyActionModel {
        match self {
            KeyAction::NewTab => KeyActionModel::NewTab,
            KeyAction::CloseTab(i) => KeyActionModel::CloseTab(*i),
            KeyAction::ToggleRtl => KeyActionModel::ToggleRtl,
            KeyAction::OpenSettings => KeyActionModel::OpenSettings,
            KeyAction::Input(s) => KeyActionModel::Input(s@),
            KeyAction::Ignore => KeyActionModel::Ignore,
        }
    }
}

/// The key is the character key `c`.
pub open spec fn is_char_key(key: &KeyInput, c: Seq<char>) -> bool {
    match key {
        KeyInput::Character(s) => s@ == c,
        _ => false,
    }
}

/// The action of a key press, with `text` the text it types and
/// `active_tab` the active tab:
/// - nothing while the settings are open;
/// - Ctrl+T opens a tab, Ctrl+W closes the active one, Ctrl+Shift+R toggles
///   right-to-left display, Ctrl+, opens the settings;
/// - typed text, without Ctrl, Alt or the logo key, goes to the shell;
/// - a named key sends its sequence; any other key does nothing.
pub open spec fn spec_key_action(
    key: &KeyInput,
    text: Option<Seq<char>>,
    modifiers: Modifiers,
    active_tab: usize,
    show_settings: bool,
) -> KeyActionModel {
    if show_settings {
        KeyActionModel::Ignore
    } else if is_char_key(key, "t"@) && modifiers.control {
        KeyActionModel::NewTab
    } else if is_char_key(key, "w"@) && modifiers.control {
        KeyActionModel::CloseTab(active_tab)
    } else if is_char_key(key, "r"@) && modifiers.control && modifiers.shift {
        KeyActionModel::ToggleRtl
    } else if is_char_key(key, ","@) && modifiers.control {
        KeyActionModel::OpenSettings
    } else if text is Some && text->0.len() > 0 && !modifiers.control && !modifiers.alt
        && !modifiers.logo {
        KeyActionModel::Input(text->0)
    } else {
        match key {
            KeyInput::Named(k) => match spec_named_key_input(*k) {
                Some(seq) => KeyActionModel::Input(seq),
                None => KeyActionModel::Ignore,
            },
            _ => KeyActionModel::Ignore,
        }
    }
}

fn char_key_is(key: &KeyInput, c: &str) -> (b: bool)
    ensures
        b == is_char_key(key, c@),
{
    match key {
        KeyInput::Character(s) => *s == c.to_string(),
        _ => false,
    }
}

/// The action of a key press (see `spec_key_action`).
pub fn key_action(
    key: &KeyInput,
    text: &Option<String>,
    modifiers: Modifiers,
    active_tab: usize,
    show_settings: bool,
) -> (a: KeyAction)
    ensures
        a@ == spec_key_action(
            key,
            match text {
                Some(t) => Some(t@),
                None => None,
            },
            modifiers,
            active_tab,
            show_settings,
        ),
{
    if show_settings {
        return KeyAction::Ignore;
    }
    if char_key_is(key, "t") && modifiers.control {
        return KeyAction::NewTab;
    }
    if char_key_is(key, "w") && modifiers.control {
        return KeyAction::CloseTab(active_tab);
    }
    if char_key_is(key, "r") && modifiers.control && modifiers.shift {
        return KeyAction::ToggleRtl;
    }
    if char_key_is(key, ",") && modifiers.control {
        return KeyAction::OpenSettings;
    }
    if let Some(t) = text {
        if !t.as_str().is_empty() && !modifiers.control && !modifiers.alt && !modifiers.logo {
            return KeyAction::Input(t.clone());
        }
    }
    match key {
        KeyInput::Named(k) => match named_key_input(*k) {
            Some(seq) => KeyAction::Input(seq),
            None => KeyAction::Ignore,
        },
        _ => KeyAction::Ignore,
    }
}

/// Text typed without Ctrl, Alt or the logo key goes to the shell as it is,
/// whatever the key and whether Shift is held (a capital letter is typed with
/// Shift), unless the settings are open.
pub proof fn lemma_typed_text_goes_to_shell(
    key: &KeyInput,
    text: Seq<char>,
    modifiers: Modifiers,
    active_tab: usize,
)
    requires
        text.len() > 0,
        !modifiers.control,
        !modifiers.alt,
        !modifiers.logo,
    ensures
        spec_key_action(key, Some(text), modifiers, active_tab, false) == KeyActionModel::Input(text),
{
}

/// Without Ctrl, Shift changes nothing: the same key with the same text does
/// the same with or without Shift.
pub proof fn lemma_shift_alone_changes_nothing(
    key: &KeyInput,
    text: Option<Seq<char>>,
    modifiers: Modifiers,
    active_tab: usize,
    show_settings: bool,
)
    requires
        !modifiers.control,
    ensures
        spec_key_action(key, text, modifiers, active_tab, show_settings) == spec_key_action(
            key,
            text,
            Modifiers { shift: !modifiers.shift, ..modifiers },
            active_tab,
            show_settings,
        ),
{
}

/// While the settings are open, every key press is ignored.
pub proof fn lemma_settings_open_ignores_keys(
    key: &KeyInput,
    text: Option<Seq<char>>,
    modifiers: Modifiers,
    active_tab: usize,
)
    ensures
        spec_key_action(key, text, modifiers, active_tab, true) == KeyActionModel::Ignore,
{
}

/// The shortcuts, whatever text the key types: Ctrl+T opens a tab, Ctrl+W
/// closes the active tab, Ctrl+Shift+R toggles right-to-left display, Ctrl+,
/// opens the settings; without Ctrl none of them is taken.
pub proof fn lemma_shortcuts(
    key: &KeyInput,
    text: Option<Seq<char>>,
    modifiers: Modifiers,
    active_tab: usize,
)
    ensures
        modifiers.control && is_char_key(key, "t"@) ==> spec_key_action(key, text, modifiers, active_tab, false)
            == KeyActionModel::NewTab,
        modifiers.control && is_char_key(key, "w"@) ==> spec_key_action(key, text, modifiers, active_tab, false)
            == KeyActionModel::CloseTab(active_tab),
        modifiers.control && modifiers.shift && is_char_key(key, "r"@) ==> spec_key_action(
            key,
            text,
            modifiers,
            active_tab,
            false,
        ) == KeyActionModel::ToggleRtl,
        modifiers.control && is_char_key(key, ","@) ==> spec_key_action(key, text, modifiers, active_tab, false)
            == KeyActionModel::OpenSettings,
        !modifiers.control ==> match spec_key_action(key, text, modifiers, active_tab, false) {
            KeyActionModel::Input(_) | KeyActionModel::Ignore => true,
            _ => false,
        },
{
    reveal_strlit("t");
    reveal_strlit("w");
    reveal_strlit("r");
    reveal_strlit(",");
    assert("t"@ != "w"@) by {
        assert("t"@[0] != "w"@[0]);
    }
    assert("t"@ != "r"@) by {
        assert("t"@[0] != "r"@[0]);
    }
    assert("w"@ != "r"@) by {
        assert("w"@[0] != "r"@[0]);
    }
    assert(","@ != "t"@) by {
        assert(","@[0] != "t"@[0]);
    }
    assert(","@ != "w"@) by {
        assert(","@[0] != "w"@[0]);
    }
    assert(","@ != "r"@) by {
        assert(","@[0] != "r"@[0]);
    }
}

/// A named key pressed without typed text sends its sequence: Enter a
/// carriage return, Backspace a backspace, Tab a tab, Escape an escape, the
/// arrows `ESC [ A` (up), `B` (down), `C` (right), `D` (left), Home
/// `ESC [ H`, End `ESC [ F`, Page Up `ESC [ 5 ~`, Page Down `ESC [ 6 ~`,
/// Delete `ESC [ 3 ~`; any other key without text does nothing.
pub proof fn lemma_named_keys_send_sequences(modifiers: Modifiers, active_tab: usize)
    ensures
        spec_key_action(&KeyInput::Named(NamedKey::Enter), None, modifiers, active_tab, false)
            == KeyActionModel::Input(seq!['\r']),
        spec_key_action(&KeyInput::Named(NamedKey::Backspace), None, modifiers, active_tab, false)
            == KeyActionModel::Input(seq!['\x08']),
        spec_key_action(&KeyInput::Named(NamedKey::Tab), None, modifiers, active_tab, false)
            == KeyActionModel::Input(seq!['\t']),
        spec_key_action(&KeyInput::Named(NamedKey::Escape), None, modifiers, active_tab, false)
            == KeyActionModel::Input(seq!['\x1b']),
        spec_key_action(&KeyInput::Named(NamedKey::ArrowUp), None, modifiers, active_tab, false)
            == KeyActionModel::Input(seq!['\x1b', '[', 'A']),
        spec_key_action(&KeyInput::Named(NamedKey::ArrowDown), None, modifiers, active_tab, false)
            == KeyActionModel::Input(seq!['\x1b', '[', 'B']),
        spec_key_action(&KeyInput::Named(NamedKey::ArrowRight), None, modifiers, active_tab, false)
            == KeyActionModel::Input(seq!['\x1b', '[', 'C']),
        spec_key_action(&KeyInput::Named(NamedKey::ArrowLeft), None, modifiers, active_tab, false)
            == KeyActionModel::Input(seq!['\x1b', '[', 'D']),
        spec_key_action(&KeyInput::Named(NamedKey::Home), None, modifiers, active_tab, false)
            == KeyActionModel::Input(seq!['\x1b', '[', 'H']),
        spec_key_action(&KeyInput::Named(NamedKey::End), None, modifiers, active_tab, false)
            == KeyActionModel::Input(seq!['\x1b', '[', 'F']),
        spec_key_action(&KeyInput::Named(NamedKey::PageUp), None, modifiers, active_tab, false)
            == KeyActionModel::Input(seq!['\x1b', '[', '5', '~']),
        spec_key_action(&KeyInput::Named(NamedKey::PageDown), None, modifiers, active_tab, false)
            == KeyActionModel::Input(seq!['\x1b', '[', '6', '~']),
        spec_key_action(&KeyInput::Named(NamedKey::Delete), None, modifiers, active_tab, false)
            == KeyActionModel::Input(seq!['\x1b', '[', '3', '~']),
        spec_key_action(&KeyInput::Named(NamedKey::Other), None, modifiers, active_tab, false)
            == KeyActionModel::Ignore,
        spec_key_action(&KeyInput::Unidentified, None, modifiers, active_tab, false) == KeyActionModel::Ignore,
{
    reveal_strlit("\r");
    reveal_strlit("\x08");
    reveal_strlit("\t");
    reveal_strlit("\x1b");
    reveal_strlit("\x1b[A");
    reveal_strlit("\x1b[B");
    reveal_strlit("\x1b[C");
    reveal_strlit("\x1b[D");
    assert("\r"@ =~= seq!['\r']);
    assert("\x08"@ =~= seq!['\x08']);
    assert("\t"@ =~= seq!['\t']);
    assert("\x1b"@ =~= seq!['\x1b']);
    assert("\x1b[A"@ =~= seq!['\x1b', '[', 'A']);
    assert("\x1b[B"@ =~= seq!['\x1b', '[', 'B']);
    assert("\x1b[C"@ =~= seq!['\x1b', '[', 'C']);
    assert("\x1b[D"@ =~= seq!['\x1b', '[', 'D']);
    reveal_strlit("\x1b[H");
    reveal_strlit("\x1b[F");
    reveal_strlit("\x1b[5~");
    reveal_strlit("\x1b[6~");
    reveal_strlit("\x1b[3~");
    assert("\x1b[H"@ =~= seq!['\x1b', '[', 'H']);
    assert("\x1b[F"@ =~= seq!['\x1b', '[', 'F']);
    assert("\x1b[5~"@ =~= seq!['\x1b', '[', '5', '~']);
    assert("\x1b[6~"@ =~= seq!['\x1b', '[', '6', '~']);
    assert("\x1b[3~"@ =~= seq!['\x1b', '[', '3', '~']);
}

} // verus!
