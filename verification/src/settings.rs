//! What the user can change. The program keeps it as a small JSON file;
//! this module holds its values and makes them safe to use.
use vstd::prelude::*;

use vstd::string::{StrSliceExecFns, StringExecFns};

use crate::detector::Sensitivity;
use crate::guard::UNLOCK_WORD;
use crate::sound::Sound;
use crate::text::{ascii_lower, lower_of};

verus! {

#[derive(Clone, Debug, PartialEq)]
pub struct Settings {
    pub sensitivity: Sensitivity,
    pub sound: bool,
    pub sound_kind: Sound,
    pub word: String,
    /// "dark", "light" or "system".
    pub theme: String,
    /// How often the keyboard was locked. The only thing catguard remembers
    /// about the cat across restarts.
    pub locks: u64,
}

impl Default for Settings {
    fn default() -> (s: Self)
        ensures
            s.sensitivity == Sensitivity::Normal,
            s.sound,
            s.sound_kind == Sound::Harmonica,
            s.word@ == UNLOCK_WORD@,
            s.theme@ == "dark"@,
            s.locks == 0,
    {
        Settings {
            sensitivity: Sensitivity::Normal,
            sound: true,
            sound_kind: Sound::Harmonica,
            word: String::from_str(UNLOCK_WORD),
            theme: String::from_str("dark"),
            locks: 0,
        }
    }
}

/// A word that can be typed blind as virtual-key codes: 3 to 12 plain
/// lower-case letters.
pub open spec fn usable_word(w: Seq<char>) -> bool {
    &&& 3 <= w.len() <= 12
    &&& forall|i: int| 0 <= i < w.len() ==> 'a' <= #[trigger] w[i] <= 'z'
}

/// The word in lower case when that is usable, else the default word.
pub open spec fn sanitized_word(w: Seq<char>) -> Seq<char> {
    if usable_word(lower_of(w)) {
        lower_of(w)
    } else {
        UNLOCK_WORD@
    }
}

pub open spec fn valid_theme(t: Seq<char>) -> bool {
    t == "dark"@ || t == "light"@ || t == "system"@
}

/// The theme when it is one of the three, else "dark".
pub open spec fn sanitized_theme(t: Seq<char>) -> Seq<char> {
    if valid_theme(t) {
        t
    } else {
        "dark"@
    }
}

fn is_usable(w: &String) -> (r: bool)
    ensures
        r == usable_word(w@),
{
    let s = w.as_str();
    let n = s.unicode_len();
    if n < 3 || n > 12 {
        return false;
    }
    let mut i: usize = 0;
    while i < n
        invariant
            n == s@.len(),
            s@ == w@,
            i <= n,
            forall|k: int| 0 <= k < i ==> 'a' <= #[trigger] s@[k] <= 'z',
        decreases n - i,
    {
        let c = s.get_char(i);
        if !('a' <= c && c <= 'z') {
            return false;
        }
        i = i + 1;
    }
    true
}

impl Settings {
    /// The unlock word is matched against virtual-key codes, which only
    /// works for plain letters. Anything else would lock the user out.
    pub fn sanitized(self) -> (r: Self)
        ensures
            r.word@ == sanitized_word(self.word@),
            r.theme@ == sanitized_theme(self.theme@),
            r.sensitivity == self.sensitivity,
            r.sound == self.sound,
            r.sound_kind == self.sound_kind,
            r.locks == self.locks,
    {
        let mut s = self;
        s.word = s.word.as_str().to_ascii_lowercase();
        if !is_usable(&s.word) {
            s.word = String::from_str(UNLOCK_WORD);
        }
        let theme_ok = s.theme == String::from_str("dark") || s.theme == String::from_str("light")
            || s.theme == String::from_str("system");
        if !theme_ok {
            s.theme = String::from_str("dark");
        }
        s
    }
}

/// Sanitizing is done once and for all: the word it leaves is always
/// usable and the theme always one of the three, and sanitizing again
/// changes nothing.
pub proof fn law_sanitized_settles(w: Seq<char>, t: Seq<char>)
    ensures
        usable_word(sanitized_word(w)),
        valid_theme(sanitized_theme(t)),
        sanitized_word(sanitized_word(w)) == sanitized_word(w),
        sanitized_theme(sanitized_theme(t)) == sanitized_theme(t),
{
    reveal_strlit("human");
    reveal_strlit("dark");
    let u = sanitized_word(w);
    assert(usable_word(u));
    assert(lower_of(u) =~= u) by {
        assert forall|i: int| 0 <= i < u.len() implies #[trigger] lower_of(u)[i] == u[i] by {
            assert('a' <= u[i] <= 'z');
            assert(ascii_lower(u[i]) == u[i]);
        }
    }
}

} // verus!
