//! Flag sets: a bitmask of matcher options, combinable by bitwise or.

use vstd::prelude::*;

verus! {

/// Bit enabling global matching. Iteration bounds in this library are always
/// explicit, so the bit is carried but does not change matching itself.
pub const GLOBAL: u8 = 0x01;

/// Bit enabling case-insensitive matching.
pub const IGNORECASE: u8 = 0x02;

/// Bit enabling multi-line anchors.
pub const MULTILINE: u8 = 0x04;

/// Bit letting `.` match line terminators.
pub const DOTALL: u8 = 0x08;

/// Bit selecting unicode mode. The matcher backend is unicode-native, so the
/// bit is carried but does not change matching itself.
pub const UNICODE: u8 = 0x10;

/// Bit requesting sticky (anchored-at-cursor) matching. The matcher backend
/// has no anchored-search mode, so the bit is carried but ignored.
pub const STICKY: u8 = 0x20;

/// Bit enabling named capture groups. The matcher backend always accepts
/// named groups, so the bit is carried but does not change matching itself.
pub const NAMED_GROUPS: u8 = 0x40;

/// A set of matcher options: a bitmask over the named bit constants of this
/// module. Flag sets are combined with bitwise or; equality is bitwise.
#[derive(Clone, Copy, Debug, PartialEq, Eq, Structural)]
pub struct Flag(pub u8);

impl std::ops::BitOr for Flag {
    type Output = Flag;

    /// Combines two flag sets by bitwise or.
    fn bitor(self, rhs: Flag) -> Flag {
        Flag(self.0 | rhs.0)
    }
}

impl vstd::std_specs::ops::BitOrSpecImpl for Flag {
    open spec fn obeys_bitor_spec() -> bool {
        true
    }

    open spec fn bitor_req(self, rhs: Flag) -> bool {
        true
    }

    open spec fn bitor_spec(self, rhs: Flag) -> Flag {
        Flag(self.0 | rhs.0)
    }
}

impl Flag {
    /// True when the case-insensitive bit is set.
    pub open spec fn ignorecase(self) -> bool {
        self.0 & IGNORECASE != 0
    }

    /// True when the multi-line bit is set.
    pub open spec fn multiline(self) -> bool {
        self.0 & MULTILINE != 0
    }

    /// True when the dot-all bit is set.
    pub open spec fn dotall(self) -> bool {
        self.0 & DOTALL != 0
    }
}

/// The flag bit named by one shorthand character of the textual-flags
/// convenience form; zero for an unrecognized character.
pub open spec fn flag_of_char(c: char) -> u8 {
    if c == 'y' {
        STICKY
    } else if c == 'g' {
        GLOBAL
    } else if c == 'u' {
        UNICODE
    } else if c == 'i' {
        IGNORECASE
    } else if c == 'm' {
        MULTILINE
    } else {
        0
    }
}

/// The flag bits denoted by a whole shorthand string: named groups (the
/// default of the convenience form) combined with the bit of each character,
/// unrecognized characters ignored silently.
pub open spec fn flags_of_chars(s: Seq<char>) -> u8
    decreases s.len(),
{
    if s.len() == 0 {
        NAMED_GROUPS
    } else {
        flags_of_chars(s.drop_last()) | flag_of_char(s.last())
    }
}

/// Builds a flag set from the single-character shorthand form
/// (`y` sticky, `g` global, `u` unicode, `i` ignore-case, `m` multi-line);
/// unrecognized characters are ignored silently.
pub fn flags_from_str(s: &str) -> (r: Flag)
    ensures
        r.0 == flags_of_chars(s@),
{
    let n = s.unicode_len();
    let mut bits: u8 = NAMED_GROUPS;
    let mut i: usize = 0;
    while i < n
        invariant
            n == s@.len(),
            0 <= i <= n,
            bits == flags_of_chars(s@.take(i as int)),
        decreases n - i,
    {
        let c = s.get_char(i);
        let b: u8 = if c == 'y' {
            STICKY
        } else if c == 'g' {
            GLOBAL
        } else if c == 'u' {
            UNICODE
        } else if c == 'i' {
            IGNORECASE
        } else if c == 'm' {
            MULTILINE
        } else {
            0
        };
        bits = bits | b;
        i = i + 1;
        proof {
            assert(s@.take(i as int).drop_last() =~= s@.take(i - 1));
            assert(s@.take(i as int).last() == s@[i - 1]);
        }
    }
    proof {
        assert(s@.take(n as int) =~= s@);
    }
    Flag(bits)
}

} // verus!
