use vstd::prelude::*;

verus! {

/// What the user asks for, whatever key produced it.
#[derive(Debug, Clone, PartialEq, Eq, Structural)]
pub enum Intent {
    MoveUp,
    MoveDown,
    Enter,
    Back,
    ShowTree,
    ShowExtensions,
    ShowLargeBlobs,
    EnterSearch,
    ToggleDeletedOnly,
    Quit,
    SearchChar(char),
    SearchBackspace,
}

/// The views that keys are mapped for.
#[derive(Debug, Clone, Copy, PartialEq, Eq, Structural)]
pub enum ViewMode {
    Tree,
    ByExtension,
    LargeBlobs,
}

/// The QWERTY key in the place of a Russian JCUKEN letter; other
/// characters map to themselves.
pub open spec fn qwerty_of(c: char) -> char {
    match c {
        'й' => 'q',
        'Й' => 'Q',
        'ц' => 'w',
        'Ц' => 'W',
        'у' => 'e',
        'У' => 'E',
        'к' => 'r',
        'К' => 'R',
        'е' => 't',
        'Е' => 'T',
        'н' => 'y',
        'Н' => 'Y',
        'г' => 'u',
        'Г' => 'U',
        'ш' => 'i',
        'Ш' => 'I',
        'щ' => 'o',
        'Щ' => 'O',
        'з' => 'p',
        'З' => 'P',
        'ф' => 'a',
        'Ф' => 'A',
        'ы' => 's',
        'Ы' => 'S',
        'в' => 'd',
        'В' => 'D',
        'а' => 'f',
        'А' => 'F',
        'п' => 'g',
        'П' => 'G',
        'р' => 'h',
        'Р' => 'H',
        'о' => 'j',
        'О' => 'J',
        'л' => 'k',
        'Л' => 'K',
        'д' => 'l',
        'Д' => 'L',
        'я' => 'z',
        'Я' => 'Z',
        'ч' => 'x',
        'Ч' => 'X',
        'с' => 'c',
        'С' => 'C',
        'м' => 'v',
        'М' => 'V',
        'и' => 'b',
        'И' => 'B',
        'т' => 'n',
        'Т' => 'N',
        'ь' => 'm',
        'Ь' => 'M',
        _ => c,
    }
}

/// Maps a character to the QWERTY key in its place, so that the vim-style
/// keys work whatever the keyboard layout.
pub fn to_qwerty(c: char) -> (r: char)
    ensures
        r == qwerty_of(c),
{
    match c {
        'й' => 'q',
        'Й' => 'Q',
        'ц' => 'w',
        'Ц' => 'W',
        'у' => 'e',
        'У' => 'E',
        'к' => 'r',
        'К' => 'R',
        'е' => 't',
        'Е' => 'T',
        'н' => 'y',
        'Н' => 'Y',
        'г' => 'u',
        'Г' => 'U',
        'ш' => 'i',
        'Ш' => 'I',
        'щ' => 'o',
        'Щ' => 'O',
        'з' => 'p',
        'З' => 'P',
        'ф' => 'a',
        'Ф' => 'A',
        'ы' => 's',
        'Ы' => 'S',
        'в' => 'd',
        'В' => 'D',
        'а' => 'f',
        'А' => 'F',
        'п' => 'g',
        'П' => 'G',
        'р' => 'h',
        'Р' => 'H',
        'о' => 'j',
        'О' => 'J',
        'л' => 'k',
        'Л' => 'K',
        'д' => 'l',
        'Д' => 'L',
        'я' => 'z',
        'Я' => 'Z',
        'ч' => 'x',
        'Ч' => 'X',
        'с' => 'c',
        'С' => 'C',
        'м' => 'v',
        'М' => 'V',
        'и' => 'b',
        'И' => 'B',
        'т' => 'n',
        'Т' => 'N',
        'ь' => 'm',
        'Ь' => 'M',
        _ => c,
    }
}

/// A key press, as the key map reads it.
#[derive(Debug, Clone, Copy, PartialEq, Eq, Structural)]
pub enum Key {
    Char(char),
    Esc,
    Enter,
    Up,
    Down,
    Left,
    Right,
    Backspace,
    Other,
}

pub open spec fn is_ascii_upper(c: char) -> bool {
    65 <= c as u32 <= 90
}

/// Relies on char::to_ascii_lowercase: `A` to `Z` become `a` to `z`, every
/// other character stays as it is.
#[verifier::external_body]
fn ascii_lower_char(c: char) -> (r: char)
    ensures
        r == crate::format::ascii_lower(c),
{
    c.to_ascii_lowercase()
}

/// The key stands for the letter `expected` (an ASCII letter) in any
/// layout: exactly for a capital, in either case for a small letter.
pub open spec fn key_matches_spec(key: Key, expected: char) -> bool {
    match key {
        Key::Char(c) => {
            let n = qwerty_of(c);
            if is_ascii_upper(expected) {
                n == expected
            } else {
                n == expected || crate::format::ascii_lower(n) == expected
            }
        },
        _ => false,
    }
}

/// Whether the key stands for the letter `expected` (an ASCII letter) in
/// any layout: exactly for a capital, in either case for a small letter.
pub fn key_matches(key: &Key, expected: char) -> (r: bool)
    ensures
        r == key_matches_spec(*key, expected),
{
    match key {
        Key::Char(c) => {
            let n = to_qwerty(*c);
            if 65 <= expected as u32 && expected as u32 <= 90 {
                n == expected
            } else {
                n == expected || ascii_lower_char(n) == expected
            }
        },
        _ => false,
    }
}

/// The intent of a key: in search mode keys edit the query; else each
/// view has its own keys, with `q` to quit and `/` to search everywhere.
pub open spec fn intent_of(key: Key, mode: ViewMode, search_mode: bool, is_at_root: bool) -> Option<Intent> {
    if search_mode {
        match key {
            Key::Esc => Some(Intent::ShowTree),
            Key::Enter => Some(Intent::Enter),
            Key::Up => Some(Intent::MoveUp),
            Key::Down => Some(Intent::MoveDown),
            Key::Backspace => Some(Intent::SearchBackspace),
            Key::Char(c) => Some(Intent::SearchChar(c)),
            _ => None,
        }
    } else if key_matches_spec(key, 'q') {
        Some(Intent::Quit)
    } else if key == Key::Char('/') {
        Some(Intent::EnterSearch)
    } else {
        match mode {
            ViewMode::Tree => if key == Key::Esc {
                if is_at_root {
                    Some(Intent::Quit)
                } else {
                    Some(Intent::Back)
                }
            } else if key == Key::Up || key_matches_spec(key, 'k') {
                Some(Intent::MoveUp)
            } else if key == Key::Down || key_matches_spec(key, 'j') {
                Some(Intent::MoveDown)
            } else if key == Key::Enter || key == Key::Right || key_matches_spec(key, 'l') {
                Some(Intent::Enter)
            } else if key == Key::Backspace || key == Key::Left || key_matches_spec(key, 'h') {
                Some(Intent::Back)
            } else if key_matches_spec(key, 'd') {
                Some(Intent::ToggleDeletedOnly)
            } else if key_matches_spec(key, 't') {
                Some(Intent::ShowExtensions)
            } else if key_matches_spec(key, 'L') {
                Some(Intent::ShowLargeBlobs)
            } else {
                None
            },
            ViewMode::ByExtension => if key == Key::Esc || key_matches_spec(key, 't') {
                Some(Intent::ShowTree)
            } else if key == Key::Up || key_matches_spec(key, 'k') {
                Some(Intent::MoveUp)
            } else if key == Key::Down || key_matches_spec(key, 'j') {
                Some(Intent::MoveDown)
            } else if key_matches_spec(key, 'L') {
                Some(Intent::ShowLargeBlobs)
            } else {
                None
            },
            ViewMode::LargeBlobs => if key == Key::Esc || key_matches_spec(key, 'l')
                || key_matches_spec(key, 'L') {
                Some(Intent::ShowTree)
            } else if key == Key::Up || key_matches_spec(key, 'k') {
                Some(Intent::MoveUp)
            } else if key == Key::Down || key_matches_spec(key, 'j') {
                Some(Intent::MoveDown)
            } else if key == Key::Enter {
                Some(Intent::Enter)
            } else {
                None
            },
        }
    }
}

/// Maps a key to what the user asks for in the current view.
pub fn map_key_to_intent(key: &Key, mode: ViewMode, search_mode: bool, is_at_root: bool) -> (r:
    Option<Intent>)
    ensures
        r == intent_of(*key, mode, search_mode, is_at_root),
{
    let code = *key;
    if search_mode {
        return match code {
            Key::Esc => Some(Intent::ShowTree),
            Key::Enter => Some(Intent::Enter),
            Key::Up => Some(Intent::MoveUp),
            Key::Down => Some(Intent::MoveDown),
            Key::Backspace => Some(Intent::SearchBackspace),
            Key::Char(c) => Some(Intent::SearchChar(c)),
            _ => None,
        };
    }
    if key_matches(&code, 'q') {
        return Some(Intent::Quit);
    }
    if code == Key::Char('/') {
        return Some(Intent::EnterSearch);
    }
    match mode {
        ViewMode::Tree => {
            if code == Key::Esc {
                if is_at_root {
                    return Some(Intent::Quit);
                } else {
                    return Some(Intent::Back);
                }
            }
            if code == Key::Up || key_matches(&code, 'k') {
                return Some(Intent::MoveUp);
            }
            if code == Key::Down || key_matches(&code, 'j') {
                return Some(Intent::MoveDown);
            }
            if code == Key::Enter || code == Key::Right || key_matches(&code, 'l') {
                return Some(Intent::Enter);
            }
            if code == Key::Backspace || code == Key::Left || key_matches(&code, 'h') {
                return Some(Intent::Back);
            }
            if key_matches(&code, 'd') {
                return Some(Intent::ToggleDeletedOnly);
            }
            if key_matches(&code, 't') {
                return Some(Intent::ShowExtensions);
            }
            if key_matches(&code, 'L') {
                return Some(Intent::ShowLargeBlobs);
            }
            None
        },
        ViewMode::ByExtension => {
            if code == Key::Esc || key_matches(&code, 't') {
                return Some(Intent::ShowTree);
            }
            if code == Key::Up || key_matches(&code, 'k') {
                return Some(Intent::MoveUp);
            }
            if code == Key::Down || key_matches(&code, 'j') {
                return Some(Intent::MoveDown);
            }
            if key_matches(&code, 'L') {
                return Some(Intent::ShowLargeBlobs);
            }
            None
        },
        ViewMode::LargeBlobs => {
            if code == Key::Esc || key_matches(&code, 'l') || key_matches(&code, 'L') {
                return Some(Intent::ShowTree);
            }
            if code == Key::Up || key_matches(&code, 'k') {
                return Some(Intent::MoveUp);
            }
            if code == Key::Down || key_matches(&code, 'j') {
                return Some(Intent::MoveDown);
            }
            if code == Key::Enter {
                return Some(Intent::Enter);
            }
            None
        },
    }
}

} // verus!
