//! Application settings: the theme choice and its in-memory store.
//!
//! Persistence (one JSON file under the platform config directory) is
//! layered on from outside; the store itself holds the current value and
//! the parsing and defaulting rules.

use vstd::prelude::*;
use crate::textscan::{is_space_char, lemma_leading_ws, lemma_trailing_ws, trimmed};

verus! {

/// Colour theme of the host application.
#[derive(Clone, Copy, Debug, PartialEq, Eq, Structural)]
pub enum Theme {
    Dark,
    Light,
}

/// The persisted settings value.
#[derive(Clone, Copy, Debug)]
pub struct AppSettings {
    pub theme: Theme,
}

impl Default for AppSettings {
    /// The default theme is dark.
    fn default() -> (r: AppSettings)
        ensures
            r.theme is Dark,
    {
        AppSettings { theme: Theme::Dark }
    }
}

/// Settings failures. The in-memory operations only ever produce
/// `Validation`; the other variants belong to the persistence layer.
#[derive(Clone, Debug)]
pub enum SettingsError {
    ConfigDirUnavailable,
    Io(String),
    Json(String),
    LockPoisoned,
    Validation(String),
}

/// Case-insensitive match of one ASCII letter.
pub open spec fn ci(c: char, lower: char, upper: char) -> bool {
    c == lower || c == upper
}

/// What a theme string parses to: the trimmed text, compared letter by
/// letter ignoring ASCII case, must read "dark" or "light".
pub open spec fn spec_parse_theme(s: Seq<char>) -> Option<Theme> {
    let t = trimmed(s);
    if t.len() == 4 && ci(t[0], 'd', 'D') && ci(t[1], 'a', 'A') && ci(t[2], 'r', 'R') && ci(
        t[3],
        'k',
        'K',
    ) {
        Option::Some(Theme::Dark)
    } else if t.len() == 5 && ci(t[0], 'l', 'L') && ci(t[1], 'i', 'I') && ci(t[2], 'g', 'G')
        && ci(t[3], 'h', 'H') && ci(t[4], 't', 'T') {
        Option::Some(Theme::Light)
    } else {
        Option::None
    }
}

fn char_at_ci(s: &str, i: usize, lower: char, upper: char) -> (r: bool)
    requires
        i < s@.len(),
    ensures
        r == ci(s@[i as int], lower, upper),
{
    let c = s.get_char(i);
    c == lower || c == upper
}

/// The store for the application settings.
pub struct SettingsStore {
    /// Where the persistence layer keeps the settings file, when anywhere.
    pub base_dir: Option<String>,
    /// The last value read or written; `None` before any access.
    pub current: Option<AppSettings>,
}

impl SettingsStore {
    /// An empty store that the persistence layer will fill from `dir`.
    pub fn with_dir(dir: String) -> (r: SettingsStore)
        ensures
            r.base_dir == Option::Some(dir),
            r.current is None,
    {
        SettingsStore { base_dir: Option::Some(dir), current: Option::None }
    }

    /// The current settings; the default when nothing is stored.
    pub fn get(&self) -> (r: AppSettings)
        ensures
            r == match self.current {
                Option::Some(s) => s,
                Option::None => AppSettings { theme: Theme::Dark },
            },
    {
        match self.current {
            Option::Some(s) => s,
            Option::None => AppSettings { theme: Theme::Dark },
        }
    }

    /// Stores the given theme and reports the resulting settings.
    pub fn set_theme_result(&mut self, theme: Theme) -> (r: Result<AppSettings, SettingsError>)
        ensures
            final(self).current == Option::Some(AppSettings { theme }),
            final(self).base_dir == old(self).base_dir,
            match r {
                Result::Ok(s) => s.theme == theme,
                Result::Err(_) => false,
            },
    {
        let settings = AppSettings { theme };
        self.current = Option::Some(settings);
        Result::Ok(settings)
    }

    /// Parses a theme name: whitespace is trimmed and ASCII case ignored.
    /// Exactly "dark" and "light" are accepted.
    pub fn parse_theme(theme: &str) -> (r: Result<Theme, SettingsError>)
        ensures
            match r {
                Result::Ok(t) => spec_parse_theme(theme@) == Option::Some(t),
                Result::Err(e) => spec_parse_theme(theme@) is None && e is Validation,
            },
    {
        let n: usize = theme.unicode_len();
        let mut a: usize = 0;
        let mut stop: bool = false;
        while !stop
            invariant
                n == theme@.len(),
                a <= n,
                forall|k: int| 0 <= k < a ==> is_space_char(#[trigger] theme@[k]),
                stop ==> (a == n || !is_space_char(theme@[a as int])),
            decreases n - a + (if stop { 0int } else { 1int }),
        {
            if a < n {
                let c = theme.get_char(a);
                if c == ' ' || c == '\t' || c == '\n' || c == '\r' {
                    a = a + 1;
                } else {
                    stop = true;
                }
            } else {
                stop = true;
            }
        }
        let mut b: usize = n;
        stop = false;
        while !stop
            invariant
                n == theme@.len(),
                a <= b <= n,
                forall|k: int| 0 <= k < a ==> is_space_char(#[trigger] theme@[k]),
                forall|k: int| b <= k < n ==> is_space_char(#[trigger] theme@[k]),
                stop ==> (b == a || !is_space_char(theme@[b - 1])),
            decreases b + (if stop { 0int } else { 1int }),
        {
            if b > a {
                let c = theme.get_char(b - 1);
                if c == ' ' || c == '\t' || c == '\n' || c == '\r' {
                    b = b - 1;
                } else {
                    stop = true;
                }
            } else {
                stop = true;
            }
        }
        proof {
            if a == n {
                lemma_leading_ws(theme@, n as int);
                lemma_trailing_ws(theme@, n as int);
            } else {
                assert(b > a);
                lemma_leading_ws(theme@, a as int);
                lemma_trailing_ws(theme@, n - b as int);
            }
            assert(trimmed(theme@) =~= theme@.subrange(a as int, b as int));
        }
        let len: usize = b - a;
        if len == 4 && char_at_ci(theme, a, 'd', 'D') && char_at_ci(theme, a + 1, 'a', 'A')
            && char_at_ci(theme, a + 2, 'r', 'R') && char_at_ci(theme, a + 3, 'k', 'K') {
            proof {
                assert(trimmed(theme@)[0] == theme@[a as int]);
                assert(trimmed(theme@)[1] == theme@[a + 1]);
                assert(trimmed(theme@)[2] == theme@[a + 2]);
                assert(trimmed(theme@)[3] == theme@[a + 3]);
            }
            Result::Ok(Theme::Dark)
        } else if len == 5 && char_at_ci(theme, a, 'l', 'L') && char_at_ci(theme, a + 1, 'i', 'I')
            && char_at_ci(theme, a + 2, 'g', 'G') && char_at_ci(theme, a + 3, 'h', 'H')
            && char_at_ci(theme, a + 4, 't', 'T') {
            proof {
                assert(trimmed(theme@)[0] == theme@[a as int]);
                assert(trimmed(theme@)[1] == theme@[a + 1]);
                assert(trimmed(theme@)[2] == theme@[a + 2]);
                assert(trimmed(theme@)[3] == theme@[a + 3]);
                assert(trimmed(theme@)[4] == theme@[a + 4]);
            }
            Result::Ok(Theme::Light)
        } else {
            proof {
                let t = trimmed(theme@);
                assert forall|j: int| 0 <= j < t.len() implies t[j] == theme@[a + j] by {}
            }
            Result::Err(SettingsError::Validation("invalid theme".to_owned()))
        }
    }
}

} // verus!
