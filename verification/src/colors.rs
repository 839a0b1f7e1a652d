//! Chat-style color codes (`&0` … `&s`) and their rendering as terminal
//! escape sequences or console markup tags.
use vstd::prelude::*;

use crate::strutil::push_char;

verus! {

#[derive(Clone, Copy, PartialEq, Eq, Structural, Debug)]
pub enum Color {
    Reset,
    Black,
    DarkBlue,
    DarkGreen,
    DarkAqua,
    DarkRed,
    DarkPurple,
    Gold,
    Gray,
    DarkGray,
    Blue,
    Green,
    Aqua,
    Red,
    LightPurple,
    Yellow,
    White,
    Violet,
    Magenta,
    Pink,
    Coral,
    Orange,
}

/// Log severity, used to pick a color for console output.
#[derive(Clone, Copy, PartialEq, Eq, Structural, Debug)]
pub enum LogLevel {
    Error,
    Warn,
    Info,
    Debug,
    Trace,
}

/// The color selected by the character after `&`, if it is a known code.
pub open spec fn spec_color_of_code(c: char) -> Option<Color> {
    if c == 'r' {
        Some(Color::Reset)
    } else if c == '0' {
        Some(Color::Black)
    } else if c == '1' {
        Some(Color::DarkBlue)
    } else if c == '2' {
        Some(Color::DarkGreen)
    } else if c == '3' {
        Some(Color::DarkAqua)
    } else if c == '4' {
        Some(Color::DarkRed)
    } else if c == '5' {
        Some(Color::DarkPurple)
    } else if c == '6' {
        Some(Color::Gold)
    } else if c == '7' {
        Some(Color::Gray)
    } else if c == '8' {
        Some(Color::DarkGray)
    } else if c == '9' {
        Some(Color::Blue)
    } else if c == 'a' {
        Some(Color::Green)
    } else if c == 'b' {
        Some(Color::Aqua)
    } else if c == 'c' {
        Some(Color::Red)
    } else if c == 'd' {
        Some(Color::LightPurple)
    } else if c == 'e' {
        Some(Color::Yellow)
    } else if c == 'f' {
        Some(Color::White)
    } else if c == 'g' {
        Some(Color::Violet)
    } else if c == 'l' {
        Some(Color::Magenta)
    } else if c == 'm' {
        Some(Color::Pink)
    } else if c == 'o' {
        Some(Color::Coral)
    } else if c == 's' {
        Some(Color::Orange)
    } else {
        None
    }
}

/// Exec mirror of [`spec_color_of_code`].
fn color_of_code(c: char) -> (r: Option<Color>)
    ensures
        r == spec_color_of_code(c),
{
    if c == 'r' {
        Some(Color::Reset)
    } else if c == '0' {
        Some(Color::Black)
    } else if c == '1' {
        Some(Color::DarkBlue)
    } else if c == '2' {
        Some(Color::DarkGreen)
    } else if c == '3' {
        Some(Color::DarkAqua)
    } else if c == '4' {
        Some(Color::DarkRed)
    } else if c == '5' {
        Some(Color::DarkPurple)
    } else if c == '6' {
        Some(Color::Gold)
    } else if c == '7' {
        Some(Color::Gray)
    } else if c == '8' {
        Some(Color::DarkGray)
    } else if c == '9' {
        Some(Color::Blue)
    } else if c == 'a' {
        Some(Color::Green)
    } else if c == 'b' {
        Some(Color::Aqua)
    } else if c == 'c' {
        Some(Color::Red)
    } else if c == 'd' {
        Some(Color::LightPurple)
    } else if c == 'e' {
        Some(Color::Yellow)
    } else if c == 'f' {
        Some(Color::White)
    } else if c == 'g' {
        Some(Color::Violet)
    } else if c == 'l' {
        Some(Color::Magenta)
    } else if c == 'm' {
        Some(Color::Pink)
    } else if c == 'o' {
        Some(Color::Coral)
    } else if c == 's' {
        Some(Color::Orange)
    } else {
        None
    }
}

impl Color {
    /// The color of a two-character code such as `&c`.
    pub fn from_str(origin: &str) -> (r: Option<Color>)
        ensures
            r == if origin@.len() == 2 && origin@[0] == '&' {
                spec_color_of_code(origin@[1])
            } else {
                Option::<Color>::None
            },
    {
        let len = origin.unicode_len();
        if len != 2 {
            return None;
        }
        if origin.get_char(0) != '&' {
            return None;
        }
        color_of_code(origin.get_char(1))
    }

    /// The ANSI color parameters of this color.
    pub open spec fn spec_terminal_code(self) -> Seq<char> {
        match self {
            Color::Reset => "0"@,
            Color::Black => "38;2;0;0;0"@,
            Color::DarkBlue => "38;2;0;0;170"@,
            Color::DarkGreen => "38;2;0;170;0"@,
            Color::DarkAqua => "38;2;0;170;170"@,
            Color::DarkRed => "38;2;170;0;0"@,
            Color::DarkPurple => "38;2;170;0;170"@,
            Color::Gold => "38;2;255;170;0"@,
            Color::Gray => "38;2;170;170;170"@,
            Color::DarkGray => "38;2;120;120;120"@,
            Color::Blue => "38;2;85;85;255"@,
            Color::Green => "38;2;85;255;85"@,
            Color::Aqua => "38;2;85;255;255"@,
            Color::Red => "38;2;255;85;85"@,
            Color::LightPurple => "38;2;255;85;255"@,
            Color::Yellow => "38;2;255;255;85"@,
            Color::White => "38;2;255;255;255"@,
            Color::Violet => "38;2;138;92;246"@,
            Color::Magenta => "38;2;168;85;210"@,
            Color::Pink => "38;2;200;100;170"@,
            Color::Coral => "38;2;235;130;120"@,
            Color::Orange => "38;2;255;170;80"@,
        }
    }

    pub fn to_terminal_code(&self) -> (r: String)
        ensures
            r@ == self.spec_terminal_code(),
    {
        match self {
            Color::Reset => String::from_str("0"),
            Color::Black => String::from_str("38;2;0;0;0"),
            Color::DarkBlue => String::from_str("38;2;0;0;170"),
            Color::DarkGreen => String::from_str("38;2;0;170;0"),
            Color::DarkAqua => String::from_str("38;2;0;170;170"),
            Color::DarkRed => String::from_str("38;2;170;0;0"),
            Color::DarkPurple => String::from_str("38;2;170;0;170"),
            Color::Gold => String::from_str("38;2;255;170;0"),
            Color::Gray => String::from_str("38;2;170;170;170"),
            Color::DarkGray => String::from_str("38;2;120;120;120"),
            Color::Blue => String::from_str("38;2;85;85;255"),
            Color::Green => String::from_str("38;2;85;255;85"),
            Color::Aqua => String::from_str("38;2;85;255;255"),
            Color::Red => String::from_str("38;2;255;85;85"),
            Color::LightPurple => String::from_str("38;2;255;85;255"),
            Color::Yellow => String::from_str("38;2;255;255;85"),
            Color::White => String::from_str("38;2;255;255;255"),
            Color::Violet => String::from_str("38;2;138;92;246"),
            Color::Magenta => String::from_str("38;2;168;85;210"),
            Color::Pink => String::from_str("38;2;200;100;170"),
            Color::Coral => String::from_str("38;2;235;130;120"),
            Color::Orange => String::from_str("38;2;255;170;80"),
        }
    }

    /// The full ANSI escape sequence of this color.
    pub open spec fn spec_terminal(self) -> Seq<char> {
        "\u{1b}[0;"@ + self.spec_terminal_code() + "m"@
    }

    pub fn to_terminal(&self) -> (r: String)
        ensures
            r@ == self.spec_terminal(),
    {
        let mut r = String::from_str("\u{1b}[0;");
        let code = self.to_terminal_code();
        r.append(code.as_str());
        r.append("m");
        r
    }

    /// The console markup tag of this color; the reset color closes a tag.
    pub open spec fn spec_godot_tag(self) -> Seq<char> {
        match self {
            Color::Reset => "[/color]"@,
            Color::Black => "[color=#000000]"@,
            Color::DarkBlue => "[color=#0000AA]"@,
            Color::DarkGreen => "[color=#00AA00]"@,
            Color::DarkAqua => "[color=#00AAAA]"@,
            Color::DarkRed => "[color=#AA0000]"@,
            Color::DarkPurple => "[color=#AA00AA]"@,
            Color::Gold => "[color=#FFAA00]"@,
            Color::Gray => "[color=#AAAAAA]"@,
            Color::DarkGray => "[color=#787878]"@,
            Color::Blue => "[color=#5555FF]"@,
            Color::Green => "[color=#55FF55]"@,
            Color::Aqua => "[color=#55FFFF]"@,
            Color::Red => "[color=#FF5555]"@,
            Color::LightPurple => "[color=#FF55FF]"@,
            Color::Yellow => "[color=#FFFF55]"@,
            Color::White => "[color=#FFFFFF]"@,
            Color::Violet => "[color=#8A5CF6]"@,
            Color::Magenta => "[color=#A855D2]"@,
            Color::Pink => "[color=#C864AA]"@,
            Color::Coral => "[color=#EB8278]"@,
            Color::Orange => "[color=#FFAA50]"@,
        }
    }

    pub fn to_godot_tag(&self) -> (r: String)
        ensures
            r@ == self.spec_godot_tag(),
    {
        match self {
            Color::Reset => String::from_str("[/color]"),
            Color::Black => String::from_str("[color=#000000]"),
            Color::DarkBlue => String::from_str("[color=#0000AA]"),
            Color::DarkGreen => String::from_str("[color=#00AA00]"),
            Color::DarkAqua => String::from_str("[color=#00AAAA]"),
            Color::DarkRed => String::from_str("[color=#AA0000]"),
            Color::DarkPurple => String::from_str("[color=#AA00AA]"),
            Color::Gold => String::from_str("[color=#FFAA00]"),
            Color::Gray => String::from_str("[color=#AAAAAA]"),
            Color::DarkGray => String::from_str("[color=#787878]"),
            Color::Blue => String::from_str("[color=#5555FF]"),
            Color::Green => String::from_str("[color=#55FF55]"),
            Color::Aqua => String::from_str("[color=#55FFFF]"),
            Color::Red => String::from_str("[color=#FF5555]"),
            Color::LightPurple => String::from_str("[color=#FF55FF]"),
            Color::Yellow => String::from_str("[color=#FFFF55]"),
            Color::White => String::from_str("[color=#FFFFFF]"),
            Color::Violet => String::from_str("[color=#8A5CF6]"),
            Color::Magenta => String::from_str("[color=#A855D2]"),
            Color::Pink => String::from_str("[color=#C864AA]"),
            Color::Coral => String::from_str("[color=#EB8278]"),
            Color::Orange => String::from_str("[color=#FFAA50]"),
        }
    }
}

/// The color code of a log level.
pub fn get_log_level_color(level: &LogLevel) -> (r: String)
    ensures
        r@ == match level {
            LogLevel::Error => "&c"@,
            LogLevel::Warn => "&6"@,
            LogLevel::Info => "&a"@,
            LogLevel::Debug => "&e"@,
            LogLevel::Trace => "&8"@,
        },
{
    match level {
        LogLevel::Error => String::from_str("&c"),
        LogLevel::Warn => String::from_str("&6"),
        LogLevel::Info => String::from_str("&a"),
        LogLevel::Debug => String::from_str("&e"),
        LogLevel::Trace => String::from_str("&8"),
    }
}

/// A candidate color code (`&` followed by a digit or lowercase letter)
/// starts at position `i`.
pub open spec fn code_at(s: Seq<char>, i: int) -> bool {
    &&& i + 2 <= s.len()
    &&& s[i] == '&'
    &&& (('0' <= s[i + 1] && s[i + 1] <= '9') || ('a' <= s[i + 1] && s[i + 1] <= 'z'))
}

/// The rewritten suffix of `s` from position `i` on: candidate codes become
/// their rendering, a backslash before a candidate code is dropped and
/// leaves the code characters as they are, everything else is copied.
pub open spec fn spec_rewrite(s: Seq<char>, i: int, godot: bool) -> Seq<char>
    decreases s.len() - i,
{
    if !(0 <= i < s.len()) {
        Seq::empty()
    } else if s[i] == '\\' && code_at(s, i + 1) {
        seq![s[i + 1], s[i + 2]] + spec_rewrite(s, i + 3, godot)
    } else if code_at(s, i) {
        match spec_color_of_code(s[i + 1]) {
            Some(color) => (if godot {
                color.spec_godot_tag()
            } else {
                color.spec_terminal()
            }) + spec_rewrite(s, i + 2, godot),
            None => seq![s[i], s[i + 1]] + spec_rewrite(s, i + 2, godot),
        }
    } else {
        seq![s[i]] + spec_rewrite(s, i + 1, godot)
    }
}

/// One rewriting pass over the whole string.
fn rewrite_colors(origin: &str, godot: bool) -> (r: String)
    ensures
        r@ == spec_rewrite(origin@, 0, godot),
{
    let len = origin.unicode_len();
    let mut out = String::new();
    let mut i: usize = 0;
    while i < len
        invariant
            len == origin@.len(),
            i <= len,
            out@ + spec_rewrite(origin@, i as int, godot) == spec_rewrite(origin@, 0, godot),
        decreases len - i,
    {
        let ghost out0 = out@;
        let c = origin.get_char(i);
        let mut advance: usize = 1;
        if c == '\\' && len - i > 2 {
            let c1 = origin.get_char(i + 1);
            let c2 = origin.get_char(i + 2);
            if c1 == '&' && (('0' <= c2 && c2 <= '9') || ('a' <= c2 && c2 <= 'z')) {
                push_char(&mut out, c1);
                push_char(&mut out, c2);
                advance = 3;
                proof {
                    assert(out@ =~= out0 + seq![origin@[i + 1], origin@[i + 2]]);
                }
            } else {
                push_char(&mut out, c);
                proof {
                    assert(!code_at(origin@, i + 1));
                    assert(out@ =~= out0 + seq![origin@[i as int]]);
                }
            }
        } else if c == '&' && len - i > 1 {
            let c1 = origin.get_char(i + 1);
            if ('0' <= c1 && c1 <= '9') || ('a' <= c1 && c1 <= 'z') {
                match color_of_code(c1) {
                    Some(color) => {
                        let rendered = if godot {
                            color.to_godot_tag()
                        } else {
                            color.to_terminal()
                        };
                        out.append(rendered.as_str());
                        advance = 2;
                    },
                    None => {
                        push_char(&mut out, c);
                        push_char(&mut out, c1);
                        advance = 2;
                        proof {
                            assert(out@ =~= out0 + seq![origin@[i as int], origin@[i + 1]]);
                        }
                    },
                }
            } else {
                push_char(&mut out, c);
                proof {
                    assert(!code_at(origin@, i as int));
                    assert(out@ =~= out0 + seq![origin@[i as int]]);
                }
            }
        } else {
            push_char(&mut out, c);
            proof {
                if c == '\\' {
                    assert(!code_at(origin@, i + 1));
                }
                assert(!code_at(origin@, i as int));
                assert(out@ =~= out0 + seq![origin@[i as int]]);
            }
        }
        i = i + advance;
    }
    proof {
        assert(out@ + spec_rewrite(origin@, len as int, godot) =~= out@);
    }
    out
}

/// Replaces the color codes of a string with ANSI escape sequences and
/// closes with the reset sequence. A backslash escapes a code: the backslash
/// is dropped and the code is kept as text.
pub fn parse_to_terminal_colors(origin: &String) -> (r: String)
    ensures
        r@ == spec_rewrite(origin@, 0, false) + Color::Reset.spec_terminal(),
{
    let mut out = rewrite_colors(origin.as_str(), false);
    let reset = Color::Reset.to_terminal();
    out.append(reset.as_str());
    out
}

/// Replaces the color codes of a string with console markup tags; if any
/// tag was opened the markup is closed at the end.
pub fn parse_to_console_godot(origin: &String) -> (r: String)
    ensures
        ({
            let rewritten = spec_rewrite(origin@, 0, true);
            if crate::strutil::spec_contains_seq(rewritten, "[color"@) {
                r@ == rewritten + Color::Reset.spec_godot_tag()
            } else {
                r@ == rewritten
            }
        }),
{
    let mut out = rewrite_colors(origin.as_str(), true);
    if crate::strutil::str_contains(out.as_str(), "[color") {
        let reset = Color::Reset.to_godot_tag();
        out.append(reset.as_str());
    }
    out
}

} // verus!
