use vstd::prelude::*;

verus! {

/// The possible readings of one parsed character.
#[derive(PartialEq, Eq, Structural, Clone, Copy, Debug)]
pub enum ParseResult {
    /// A normal character was read. May be a newline.
    Character(char),
    /// A special character was read.
    Special(char),
    /// A state-modifying character that must not be processed further.
    Nothing,
    /// A character that indicates an invalid regex pattern.
    BadPattern,
}

/// A simple character-by-character regex reader, with its own escape state.
pub struct RegexParser {
    /// Whether the next character is escaped.
    pub escaped: bool,
    /// Whether the extended syntax is in force.
    pub extended: bool,
}

/// A character whose special meaning does not depend on the syntax flavour.
pub open spec fn char_basic_special(c: char) -> bool {
    c == '.' || c == '[' || c == '^' || c == '$' || c == '*'
}

/// A character whose special meaning flips between the two syntax flavours.
pub open spec fn char_flavour_special(c: char) -> bool {
    c == '+' || c == '?' || c == '(' || c == '|' || c == '{'
}

/// How one character reads, given the escape state and the flavour.
pub open spec fn spec_parse_char(escaped: bool, extended: bool, c: char) -> ParseResult {
    if c == '\\' {
        if escaped {
            ParseResult::Character('\\')
        } else {
            ParseResult::Nothing
        }
    } else if c == '\n' {
        if escaped {
            ParseResult::BadPattern
        } else {
            ParseResult::Character('\n')
        }
    } else if char_basic_special(c) {
        if escaped {
            ParseResult::Character(c)
        } else {
            ParseResult::Special(c)
        }
    } else if char_flavour_special(c) {
        if escaped != extended {
            ParseResult::Special(c)
        } else {
            ParseResult::Character(c)
        }
    } else if escaped {
        if c == 'n' {
            ParseResult::Character('\n')
        } else {
            ParseResult::BadPattern
        }
    } else {
        ParseResult::Character(c)
    }
}

impl RegexParser {
    /// Creates a new parser. The parser will use the extended syntax if the
    /// extended parameter is set.
    pub fn new(extended: bool) -> (r: RegexParser)
        ensures
            r.escaped == false,
            r.extended == extended,
    {
        RegexParser { escaped: false, extended }
    }

    /// Parse a character. The parser works on its own state, which may have
    /// been modified through previous parse calls: only an unescaped
    /// backslash arms the escape for the following character.
    pub fn parse(&mut self, c: char) -> (r: ParseResult)
        ensures
            final(self).extended == old(self).extended,
            final(self).escaped == (!old(self).escaped && c == '\\'),
            r == spec_parse_char(old(self).escaped, old(self).extended, c),
    {
        // Toggle escaping off.
        let is_escaped = self.escaped;
        if self.escaped {
            self.escaped = false;
        }

        match c {
            // A backslash may toggle the escaped property.
            '\\' => if is_escaped {
                ParseResult::Character(c)
            } else {
                self.escaped = true;
                ParseResult::Nothing
            },
            // A newline can only be parsed if it isn't escaped.
            '\n' => if is_escaped {
                ParseResult::BadPattern
            } else {
                ParseResult::Character(c)
            },
            // These characters behave the same way in both flavours.
            // If they aren't escaped, they have special meaning.
            '.' | '[' | '^' | '$' | '*' => if is_escaped {
                ParseResult::Character(c)
            } else {
                ParseResult::Special(c)
            },
            // These characters have their behaviour flipped between the
            // flavours: special when escaped in one, unescaped in the other.
            '+' | '?' | '(' | '|' | '{' => if is_escaped != self.extended {
                ParseResult::Special(c)
            } else {
                ParseResult::Character(c)
            },
            // Any other escaped character is an error, with the exception of
            // the escaped-newline sequence.
            _ => if is_escaped {
                if c == 'n' {
                    ParseResult::Character('\n')
                } else {
                    ParseResult::BadPattern
                }
            } else {
                ParseResult::Character(c)
            },
        }
    }
}

} // verus!
