//! Log levels and their names.
use vstd::prelude::*;

verus! {

/// Log level: an ordered integer severity. Any integer is a valid level, so
/// custom levels coexist with the built-in ones by taking other numbers.
pub type Level = i32;

/// Level Trace
pub const LEVEL_TRACE: Level = 0;

/// Level Debug
pub const LEVEL_DEBUG: Level = 1;

/// Level Info
pub const LEVEL_INFO: Level = 2;

/// Level Warn
pub const LEVEL_WARN: Level = 3;

/// Level Error
pub const LEVEL_ERROR: Level = 4;

/// Level Off: nothing passes a filter set to it but records at this very level.
pub const LEVEL_OFF: Level = 2147483647;

/// The canonical name of a built-in level, if `level` is one.
pub open spec fn level_name(level: Level) -> Option<&'static str> {
    if level == LEVEL_TRACE {
        Some("trace")
    } else if level == LEVEL_DEBUG {
        Some("debug")
    } else if level == LEVEL_INFO {
        Some("info")
    } else if level == LEVEL_WARN {
        Some("warn")
    } else if level == LEVEL_ERROR {
        Some("error")
    } else {
        None
    }
}

/// Level to string: the lowercase name of a built-in level, `None` for any other.
pub fn level_to_str(level: Level) -> (r: Option<&'static str>)
    ensures
        r == level_name(level),
{
    if level == LEVEL_TRACE {
        Some("trace")
    } else if level == LEVEL_DEBUG {
        Some("debug")
    } else if level == LEVEL_INFO {
        Some("info")
    } else if level == LEVEL_WARN {
        Some("warn")
    } else if level == LEVEL_ERROR {
        Some("error")
    } else {
        None
    }
}

/// `s` spells `lower`, a word of lowercase ASCII letters, in any mix of cases.
pub open spec fn spells(s: Seq<char>, lower: Seq<char>) -> bool {
    &&& s.len() == lower.len()
    &&& forall|i: int|
        0 <= i < s.len() ==> #[trigger] s[i] == lower[i] || (s[i] as u32) + 32 == (lower[i] as u32)
}

/// The built-in level whose name `s` spells, ignoring case.
pub open spec fn named_level(s: Seq<char>) -> Option<Level> {
    if spells(s, "trace"@) {
        Some(LEVEL_TRACE)
    } else if spells(s, "debug"@) {
        Some(LEVEL_DEBUG)
    } else if spells(s, "info"@) {
        Some(LEVEL_INFO)
    } else if spells(s, "warn"@) {
        Some(LEVEL_WARN)
    } else if spells(s, "error"@) {
        Some(LEVEL_ERROR)
    } else {
        None
    }
}

/// An ASCII decimal digit.
pub open spec fn is_digit(c: char) -> bool {
    '0' <= c <= '9'
}

/// A nonempty run of decimal digits.
pub open spec fn all_digits(s: Seq<char>) -> bool {
    s.len() > 0 && forall|i: int| 0 <= i < s.len() ==> #[trigger] is_digit(s[i])
}

/// The value of a run of decimal digits.
pub open spec fn digits_value(s: Seq<char>) -> int
    decreases s.len(),
{
    if s.len() == 0 {
        0
    } else {
        digits_value(s.drop_last()) * 10 + ((s.last() as u32) - 48)
    }
}

/// The integer that `s` writes in decimal, with an optional sign.
pub open spec fn integer_value(s: Seq<char>) -> Option<int> {
    if s.len() > 0 && s[0] == '-' && all_digits(s.subrange(1, s.len() as int)) {
        Some(-digits_value(s.subrange(1, s.len() as int)))
    } else if s.len() > 0 && s[0] == '+' && all_digits(s.subrange(1, s.len() as int)) {
        Some(digits_value(s.subrange(1, s.len() as int)))
    } else if all_digits(s) {
        Some(digits_value(s))
    } else {
        None
    }
}

/// The integer that `s` writes, if it is one and fits a level.
pub open spec fn level_number(s: Seq<char>) -> Option<Level> {
    match integer_value(s) {
        Some(v) => if i32::MIN <= v <= i32::MAX {
            Some(v as Level)
        } else {
            None
        },
        None => None,
    }
}

/// The level that a text names: a built-in name in any case, else an
/// integer that fits, else Off.
pub open spec fn level_of(s: Seq<char>) -> Level {
    match named_level(s) {
        Some(level) => level,
        None => match level_number(s) {
            Some(level) => level,
            None => LEVEL_OFF,
        },
    }
}

/// Whether `s` spells `lower` in any mix of cases.
fn spells_word(s: &str, lower: &str) -> (r: bool)
    ensures
        r == spells(s@, lower@),
{
    let n = s.unicode_len();
    if n != lower.unicode_len() {
        return false;
    }
    let mut i: usize = 0;
    while i < n
        invariant
            n == s@.len(),
            n == lower@.len(),
            i <= n,
            forall|k: int| 0 <= k < i ==> #[trigger] s@[k] == lower@[k] || (s@[k] as u32) + 32 == (lower@[k] as u32),
        decreases n - i,
    {
        let c = s.get_char(i);
        let l = lower.get_char(i);
        if c != l && (c as u32) + 32 != (l as u32) {
            return false;
        }
        i = i + 1;
    }
    true
}

/// A run of digits only grows as digits are added to it.
proof fn lemma_digits_grow(s: Seq<char>, k: int)
    requires
        0 <= k <= s.len(),
        forall|i: int| 0 <= i < s.len() ==> #[trigger] is_digit(s[i]),
    ensures
        digits_value(s) >= digits_value(s.subrange(0, k)) >= 0,
    decreases s.len(),
{
    if s.len() > 0 {
        assert(is_digit(s[s.len() - 1]));
        assert forall|i: int| 0 <= i < s.drop_last().len() implies #[trigger] is_digit(
            s.drop_last()[i],
        ) by {
            assert(is_digit(s[i]));
        }
    }
    if k == s.len() {
        assert(s.subrange(0, k) =~= s);
        if s.len() > 0 {
            lemma_digits_grow(s.drop_last(), k - 1);
        }
    } else {
        lemma_digits_grow(s.drop_last(), k);
        assert(s.drop_last().subrange(0, k) =~= s.subrange(0, k));
    }
}

/// The integer that `s` writes, if it fits a level.
fn parse_level(s: &str) -> (r: Option<Level>)
    ensures
        r == level_number(s@),
{
    let n = s.unicode_len();
    if n == 0 {
        return None;
    }
    let first = s.get_char(0);
    let start: usize = if first == '-' || first == '+' {
        1
    } else {
        0
    };
    if start == n {
        assert(!is_digit(s@[0]));
        assert(s@.subrange(1, n as int).len() == 0);
        return None;
    }
    let ghost body = s@.subrange(start as int, n as int);
    let mut acc: i64 = 0;
    let mut i: usize = start;
    while i < n
        invariant
            n == s@.len(),
            start <= i <= n,
            start < n,
            first == s@[0],
            start == (if first == '-' || first == '+' { 1usize } else { 0usize }),
            body == s@.subrange(start as int, n as int),
            forall|k: int| start <= k < i ==> #[trigger] is_digit(s@[k]),
            acc == digits_value(s@.subrange(start as int, i as int)),
            0 <= acc <= 2147483648,
        decreases n - i,
    {
        let c = s.get_char(i);
        if !('0' <= c && c <= '9') {
            assert(!is_digit(body[i - start]));
            assert(!all_digits(body));
            if start == 0 {
                assert(s@ =~= body);
            } else {
                assert(!is_digit(s@[0]));
            }
            return None;
        }
        let ghost prefix = s@.subrange(start as int, i as int);
        assert(s@.subrange(start as int, i + 1).drop_last() =~= prefix);
        acc = acc * 10 + ((c as u32) - 48) as i64;
        i = i + 1;
        if acc > 2147483648 {
            proof {
                if all_digits(body) {
                    lemma_digits_grow(body, i - start);
                    assert(body.subrange(0, i - start) =~= s@.subrange(start as int, i as int));
                }
                if start == 0 {
                    assert(s@ =~= body);
                } else {
                    assert(!is_digit(s@[0]));
                }
            }
            return None;
        }
    }
    assert(s@.subrange(start as int, n as int) =~= body);
    assert(all_digits(body)) by {
        assert forall|k: int| 0 <= k < body.len() implies #[trigger] is_digit(body[k]) by {
            assert(is_digit(s@[start + k]));
        }
    }
    if start == 0 {
        assert(s@ =~= body);
    }
    if first == '-' {
        Some((0 - acc) as i32)
    } else if acc <= 2147483647 {
        Some(acc as i32)
    } else {
        None
    }
}

/// String to level: a built-in level name in any case (`trace`, `debug`,
/// `info`, `warn`, `error`), or a decimal integer that fits a level; any other
/// text gives Off.
pub fn str_to_level(level: &str) -> (r: Level)
    ensures
        r == level_of(level@),
{
    if spells_word(level, "trace") {
        LEVEL_TRACE
    } else if spells_word(level, "debug") {
        LEVEL_DEBUG
    } else if spells_word(level, "info") {
        LEVEL_INFO
    } else if spells_word(level, "warn") {
        LEVEL_WARN
    } else if spells_word(level, "error") {
        LEVEL_ERROR
    } else {
        match parse_level(level) {
            Some(value) => value,
            None => LEVEL_OFF,
        }
    }
}

} // verus!
