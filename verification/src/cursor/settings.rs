//! Cursor theme and size, as configured by `XCURSOR_THEME` and `XCURSOR_SIZE`.
use vstd::prelude::*;

verus! {

/// Whether a character has the Unicode `White_Space` property: U+0009 to
/// U+000D, the space, U+0085, U+00A0, U+1680, U+2000 to U+200A, U+2028,
/// U+2029, U+202F, U+205F and U+3000.
pub open spec fn white_space(c: char) -> bool {
    let n = c as u32;
    ||| 0x9 <= n <= 0xd
    ||| n == 0x20
    ||| n == 0x85
    ||| n == 0xa0
    ||| n == 0x1680
    ||| 0x2000 <= n <= 0x200a
    ||| n == 0x2028
    ||| n == 0x2029
    ||| n == 0x202f
    ||| n == 0x205f
    ||| n == 0x3000
}

/// Whether `c` has the Unicode `White_Space` property (what
/// `char::is_whitespace` decides).
fn char_is_whitespace(c: char) -> (r: bool)
    ensures
        r == white_space(c),
{
    let n = c as u32;
    (0x9 <= n && n <= 0xd) || n == 0x20 || n == 0x85 || n == 0xa0 || n == 0x1680 || (0x2000 <= n && n
        <= 0x200a) || n == 0x2028 || n == 0x2029 || n == 0x202f || n == 0x205f || n == 0x3000
}

/// Every character is white space: what `str::trim` would empty.
pub open spec fn blank(s: Seq<char>) -> bool {
    forall|i: int| 0 <= i < s.len() ==> white_space(#[trigger] s[i])
}

/// Whether trimming `s` leaves nothing.
pub fn is_blank(s: &str) -> (r: bool)
    ensures
        r == blank(s@),
{
    let n = s.unicode_len();
    let mut i: usize = 0;
    while i < n
        invariant
            n == s@.len(),
            i <= n,
            forall|j: int| 0 <= j < i ==> white_space(#[trigger] s@[j]),
        decreases n - i,
    {
        if !char_is_whitespace(s.get_char(i)) {
            return false;
        }
        i = i + 1;
    }
    true
}

pub open spec fn is_digit(c: char) -> bool {
    '0' <= c && c <= '9'
}

/// The value of a string of decimal digits, most significant first.
pub open spec fn digits_value(s: Seq<char>) -> int
    decreases s.len(),
{
    if s.len() == 0 {
        0
    } else {
        digits_value(s.drop_last()) * 10 + (s.last() as int - '0' as int)
    }
}

/// The digits of a decimal after an optional leading `+`.
pub open spec fn unsigned_digits(s: Seq<char>) -> Seq<char> {
    if s.len() > 0 && s[0] == '+' {
        s.drop_first()
    } else {
        s
    }
}

pub open spec fn all_digits(d: Seq<char>) -> bool {
    forall|i: int| 0 <= i < d.len() ==> is_digit(#[trigger] d[i])
}

/// What `str::parse::<u32>` accepts: an optional `+`, then at least one
/// ASCII digit and nothing else, of a value that fits `u32`.
pub open spec fn decimal_u32(s: Seq<char>) -> Option<u32> {
    let d = unsigned_digits(s);
    if d.len() > 0 && all_digits(d) && digits_value(d) <= u32::MAX {
        Some(digits_value(d) as u32)
    } else {
        None
    }
}

proof fn lemma_digits_nonneg(s: Seq<char>)
    requires
        forall|i: int| 0 <= i < s.len() ==> is_digit(#[trigger] s[i]),
    ensures
        digits_value(s) >= 0,
    decreases s.len(),
{
    if s.len() > 0 {
        lemma_digits_nonneg(s.drop_last());
    }
}

/// Parse a decimal `u32` as std's `FromStr` does.
pub fn parse_u32(s: &str) -> (r: Option<u32>)
    ensures
        r == decimal_u32(s@),
{
    let n = s.unicode_len();
    let start: usize = if n > 0 && s.get_char(0) == '+' {
        1
    } else {
        0
    };
    let ghost d = unsigned_digits(s@);
    assert(d == s@.subrange(start as int, n as int));
    if start >= n {
        return None;
    }
    let mut value: u64 = 0;
    let mut i: usize = start;
    while i < n
        invariant
            n == s@.len(),
            start <= i <= n,
            d == s@.subrange(start as int, n as int),
            d == unsigned_digits(s@),
            forall|j: int| start <= j < i ==> is_digit(#[trigger] s@[j]),
            value == digits_value(s@.subrange(start as int, i as int)),
            value <= u32::MAX,
        decreases n - i,
    {
        let c = s.get_char(i);
        let ghost prefix = s@.subrange(start as int, i as int);
        let ghost next = s@.subrange(start as int, i + 1);
        assert(next.drop_last() == prefix);
        if !('0' <= c && c <= '9') {
            assert(d[i - start] == c);
            assert(!is_digit(d[i - start]));
            return None;
        }
        let digit: u64 = (c as u32 - '0' as u32) as u64;
        value = value * 10 + digit;
        if value > u32::MAX as u64 {
            proof {
                // Further digits only grow the value.
                if all_digits(d) {
                    assert forall|j: int| start <= j < n implies is_digit(#[trigger] s@[j]) by {
                        assert(s@[j] == d[j - start]);
                    }
                    assert(next.drop_last() == prefix);
                    lemma_digits_grow(s@, start as int, i + 1, n as int);
                    assert(s@.subrange(start as int, n as int) == d);
                }
            }
            return None;
        }
        i = i + 1;
    }
    assert(s@.subrange(start as int, n as int) == d);
    Some(value as u32)
}

proof fn lemma_digits_grow(s: Seq<char>, start: int, i: int, k: int)
    requires
        0 <= start < i <= k <= s.len(),
        forall|j: int| start <= j < k ==> is_digit(#[trigger] s[j]),
    ensures
        digits_value(s.subrange(start, k)) >= digits_value(s.subrange(start, i)),
    decreases k - i,
{
    if k > i {
        lemma_digits_grow(s, start, i, k - 1);
        let t = s.subrange(start, k);
        assert(t.drop_last() == s.subrange(start, k - 1));
        assert forall|j: int| 0 <= j < t.drop_last().len() implies is_digit(
            #[trigger] t.drop_last()[j],
        ) by {
            assert(t.drop_last()[j] == s[start + j]);
        }
        lemma_digits_nonneg(t.drop_last());
        assert(is_digit(s[k - 1]));
    }
}

/// The cursor theme name and its logical size in pixels.
#[derive(Clone, Debug, PartialEq, Eq)]
pub struct Settings {
    pub theme: String,
    pub size: u32,
}

/// One environment variable as the process sees it.
pub enum EnvValue {
    Missing,
    NotUnicode,
    Text(String),
}

/// Why the cursor settings are refused.
#[derive(Clone, Copy, Debug, PartialEq, Eq, Structural)]
pub enum SettingsError {
    /// `XCURSOR_THEME` is not valid Unicode.
    ThemeNotUnicode,
    /// `XCURSOR_THEME` holds only white space.
    EmptyTheme,
    /// `XCURSOR_SIZE` is not valid Unicode.
    SizeNotUnicode,
    /// `XCURSOR_SIZE` is not a positive integer that fits `i32`.
    InvalidSize,
}

/// The theme used when none is configured.
pub open spec fn default_theme() -> Seq<char> {
    "default"@
}

/// The size used when none is configured.
pub const DEFAULT_SIZE: u32 = 24;

/// A configured size is a positive logical-pixel count fitting `i32`.
pub open spec fn valid_size(n: u32) -> bool {
    0 < n <= i32::MAX
}

/// What the two variables yield: the errors in the order they are checked.
pub open spec fn settings_from(theme: EnvValue, size: EnvValue) -> Result<
    (Seq<char>, u32),
    SettingsError,
> {
    match theme {
        EnvValue::NotUnicode => Err(SettingsError::ThemeNotUnicode),
        _ => {
            let name = match theme {
                EnvValue::Text(t) => t@,
                _ => default_theme(),
            };
            if blank(name) {
                Err(SettingsError::EmptyTheme)
            } else {
                match size {
                    EnvValue::NotUnicode => Err(SettingsError::SizeNotUnicode),
                    EnvValue::Missing => Ok((name, DEFAULT_SIZE)),
                    EnvValue::Text(s) => match decimal_u32(s@) {
                        Some(n) => if valid_size(n) {
                            Ok((name, n))
                        } else {
                            Err(SettingsError::InvalidSize)
                        },
                        None => Err(SettingsError::InvalidSize),
                    },
                }
            }
        },
    }
}

/// A configured size is used as configured, whatever the theme: an
/// accepted `XCURSOR_SIZE` holding the decimal `n` gives size `n`, and two
/// themes that are both accepted give the same size; with an unset or
/// non-blank theme such a size is always accepted.
pub proof fn lemma_size_as_configured(theme: EnvValue, other: EnvValue, size: EnvValue)
    ensures
        size is Text && settings_from(theme, size) is Ok ==> decimal_u32(size->Text_0@) is Some && settings_from(
            theme,
            size,
        )->Ok_0.1 == decimal_u32(size->Text_0@)->0,
        settings_from(theme, size) is Ok && settings_from(other, size) is Ok ==> settings_from(theme, size)->Ok_0.1
            == settings_from(other, size)->Ok_0.1,
        theme is Text && settings_from(theme, size) is Ok ==> settings_from(theme, size)->Ok_0.0 == theme->Text_0@,
        (theme is Missing || (theme is Text && !blank(theme->Text_0@))) && size is Text && decimal_u32(
            size->Text_0@,
        ) is Some && valid_size(decimal_u32(size->Text_0@)->0) ==> settings_from(theme, size) is Ok
            && settings_from(theme, size)->Ok_0.1 == decimal_u32(size->Text_0@)->0,
{
    reveal_strlit("default");
    assert(default_theme()[0] == 'd');
    assert(!white_space('d'));
    assert(!blank(default_theme()));
}

/// Accepted settings always name a theme that is not blank and a size
/// that is a positive `i32`; an unset size is 24 and an unset theme is
/// "default".
pub proof fn lemma_accepted_settings(theme: EnvValue, size: EnvValue)
    requires
        settings_from(theme, size) is Ok,
    ensures
        !blank(settings_from(theme, size)->Ok_0.0),
        valid_size(settings_from(theme, size)->Ok_0.1),
        size is Missing ==> settings_from(theme, size)->Ok_0.1 == 24,
        theme is Missing ==> settings_from(theme, size)->Ok_0.0 == default_theme(),
{
}

impl Settings {
    /// Settings from the values of `XCURSOR_THEME` and `XCURSOR_SIZE`.
    pub fn from_values(theme: EnvValue, size: EnvValue) -> (r: Result<Settings, SettingsError>)
        ensures
            match (r, settings_from(theme, size)) {
                (Ok(s), Ok((name, n))) => s.theme@ == name && s.size == n,
                (Err(e), Err(f)) => e == f,
                _ => false,
            },
    {
        let name = match theme {
            EnvValue::NotUnicode => {
                return Err(SettingsError::ThemeNotUnicode);
            },
            EnvValue::Missing => String::from_str("default"),
            EnvValue::Text(t) => t,
        };
        if is_blank(name.as_str()) {
            return Err(SettingsError::EmptyTheme);
        }
        let n = match size {
            EnvValue::NotUnicode => {
                return Err(SettingsError::SizeNotUnicode);
            },
            EnvValue::Missing => DEFAULT_SIZE,
            EnvValue::Text(s) => match parse_u32(s.as_str()) {
                Some(n) => {
                    if n > 0 && n <= i32::MAX as u32 {
                        n
                    } else {
                        return Err(SettingsError::InvalidSize);
                    }
                },
                None => {
                    return Err(SettingsError::InvalidSize);
                },
            },
        };
        Ok(Settings { theme: name, size: n })
    }

    /// Whether a prepared cursor may be loaded with these settings: a theme
    /// name that is not blank and a positive size fitting `i32`.
    pub fn usable(&self) -> (r: bool)
        ensures
            r == (!blank(self.theme@) && valid_size(self.size)),
    {
        !is_blank(self.theme.as_str()) && self.size != 0 && self.size <= i32::MAX as u32
    }
}

} // verus!
